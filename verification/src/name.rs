//! Labels and domain names, with the RFC 1035 compressed-name reader.
//!
//! A name is an ordered sequence of labels, head first, so the root is the
//! empty sequence. The wire form of a name is each label preceded by its
//! length byte, closed by a zero byte; a compression pointer (two high bits
//! set) may replace a tail of the sequence anywhere, sending the reader to an
//! earlier part of the message. The reader spends one unit of a 127-step
//! budget per length byte or pointer, so a cyclic pointer graph runs out and
//! fails with `NameTooLong`.
use vstd::prelude::*;

use crate::wire::push_u8;
use crate::Error;
use vstd::string::StringSliceAdditionalSpecFns;
use vstd::utf8::encode_utf8;

verus! {

/// Bytes a label may carry: letters, digits, hyphen, and underscore
/// (underscore for SRV-style owners such as the `_tcp` convention).
pub open spec fn valid_label_byte(b: u8) -> bool {
    (48 <= b <= 57) || (65 <= b <= 90) || (97 <= b <= 122) || b == 45 || b == 95
}

/// A well-formed label: 1 to 63 bytes, all from the accepted charset.
pub open spec fn valid_label(l: Seq<u8>) -> bool {
    1 <= l.len() <= 63 && (forall|i: int| 0 <= i < l.len() ==> valid_label_byte(l[i]))
}

/// The wire form of one label: a length byte, then the raw bytes.
pub open spec fn label_bytes(l: Seq<u8>) -> Seq<u8> {
    seq![l.len() as u8] + l
}

/// The wire form of a label sequence, without the closing zero byte.
pub open spec fn labels_bytes(n: Seq<Seq<u8>>) -> Seq<u8>
    decreases n.len(),
{
    if n.len() == 0 {
        seq![]
    } else {
        label_bytes(n[0]) + labels_bytes(n.drop_first())
    }
}

/// The uncompressed wire form of a whole name: every label in order, closed
/// by a zero byte.
pub open spec fn name_bytes(n: Seq<Seq<u8>>) -> Seq<u8> {
    labels_bytes(n) + seq![0u8]
}

/// Appending a label on the right extends the label bytes on the right.
pub proof fn lemma_labels_bytes_push(n: Seq<Seq<u8>>, l: Seq<u8>)
    ensures
        labels_bytes(n.push(l)) == labels_bytes(n) + label_bytes(l),
    decreases n.len(),
{
    if n.len() == 0 {
        assert(n.push(l).drop_first() =~= Seq::<Seq<u8>>::empty());
        assert(n.push(l)[0] == l);
        assert(labels_bytes(n.push(l)) == label_bytes(l) + labels_bytes(
            Seq::<Seq<u8>>::empty(),
        ));
        assert(labels_bytes(n.push(l)) =~= labels_bytes(n) + label_bytes(l));
    } else {
        assert(n.push(l).drop_first() =~= n.drop_first().push(l));
        assert(n.push(l)[0] == n[0]);
        lemma_labels_bytes_push(n.drop_first(), l);
        assert(label_bytes(n[0]) + (labels_bytes(n.drop_first()) + label_bytes(l)) =~= (
        label_bytes(n[0]) + labels_bytes(n.drop_first())) + label_bytes(l));
        assert(labels_bytes(n.push(l)) =~= labels_bytes(n) + label_bytes(l));
    }
}

/// A well-formed name: well-formed labels, at most 255 wire octets, and few
/// enough labels that the reader's 127-step budget can take the name in.
pub open spec fn valid_name(n: Seq<Seq<u8>>) -> bool {
    &&& forall|i: int| 0 <= i < n.len() ==> valid_label(#[trigger] n[i])
    &&& name_bytes(n).len() <= 255
    &&& n.len() <= 126
}

/// One step of the compressed-name reader, at `pos` in the message `d`.
///
/// `resume` remembers where the outer record continues: it is set when the
/// first pointer is taken and never moved again. `fuel` is the remaining
/// step budget; every length byte or pointer costs one unit, so the reader
/// terminates on any input, cyclic pointers included.
pub open spec fn name_rec(d: Seq<u8>, pos: int, resume: Option<int>, fuel: nat) -> Result<
    (Seq<Seq<u8>>, int),
    Error,
>
    decreases fuel,
{
    if fuel == 0 {
        Err(Error::NameTooLong)
    } else if !(0 <= pos < d.len()) {
        Err(Error::IoError)
    } else {
        let b = d[pos];
        if b == 0 {
            Ok(
                (seq![], match resume {
                    Option::Some(r) => r,
                    Option::None => pos + 1,
                }),
            )
        } else if b >= 192 {
            if pos + 2 > d.len() {
                Err(Error::IoError)
            } else {
                let off = (b - 192) * 256 + d[pos + 1];
                let jump_resume = match resume {
                    Option::Some(r) => Option::Some(r),
                    Option::None => Option::Some(pos + 2),
                };
                name_rec(d, off as int, jump_resume, (fuel - 1) as nat)
            }
        } else if b < 64 {
            if pos + 1 + b > d.len() {
                Err(Error::IoError)
            } else if !valid_label(d.subrange(pos + 1, pos + 1 + b)) {
                Err(Error::InvalidLabel)
            } else {
                match name_rec(d, pos + 1 + b, resume, (fuel - 1) as nat) {
                    Ok(t) => Ok((seq![d.subrange(pos + 1, pos + 1 + b)] + t.0, t.1)),
                    Err(e) => Err(e),
                }
            }
        } else {
            Err(Error::UnknownLabelFormat)
        }
    }
}

/// What `Name::parse` returns on `d` at `pos`: the labels read and the
/// position where the outer record continues, or the first error met.
pub open spec fn spec_parse_name(d: Seq<u8>, pos: int) -> Result<(Seq<Seq<u8>>, int), Error> {
    match name_rec(d, pos, Option::None, 127) {
        Ok(t) => if name_bytes(t.0).len() > 255 {
            Err(Error::NameTooLong)
        } else {
            Ok(t)
        },
        Err(e) => Err(e),
    }
}

/// Labels already read, prepended to the rest of a reader outcome.
pub open spec fn prepend_labels(
    acc: Seq<Seq<u8>>,
    r: Result<(Seq<Seq<u8>>, int), Error>,
) -> Result<(Seq<Seq<u8>>, int), Error> {
    match r {
        Ok(t) => Ok((acc + t.0, t.1)),
        Err(e) => Err(e),
    }
}

/// The text form of a name: labels joined by dots; the root is empty text.
pub open spec fn name_text(n: Seq<Seq<u8>>) -> Seq<u8>
    decreases n.len(),
{
    if n.len() == 0 {
        seq![]
    } else if n.len() == 1 {
        n[0]
    } else {
        n[0] + seq![46u8] + name_text(n.drop_first())
    }
}

/// Text bytes reread as characters, one per byte.
pub open spec fn chars_of(b: Seq<u8>) -> Seq<char> {
    Seq::new(b.len(), |i: int| b[i] as char)
}

/// The length of the piece of `b` before the first dot (the whole of `b`
/// when it has none).
pub open spec fn piece_len(b: Seq<u8>) -> nat
    decreases b.len(),
{
    if b.len() == 0 {
        0nat
    } else if b[0] == 46 {
        0nat
    } else {
        1nat + piece_len(b.drop_first())
    }
}

/// `b` split at every dot. A trailing dot yields a trailing empty piece,
/// which a later validity check rejects.
pub open spec fn split_text(b: Seq<u8>) -> Seq<Seq<u8>>
    decreases b.len(),
{
    let k = piece_len(b);
    if k >= b.len() {
        seq![b]
    } else {
        seq![b.subrange(0, k as int)] + split_text(b.subrange(k as int + 1, b.len() as int))
    }
}

/// What `Name::from_str` returns on the text bytes `b`.
pub open spec fn spec_name_from_text(b: Seq<u8>) -> Result<Seq<Seq<u8>>, Error> {
    let ps = split_text(b);
    if !(forall|i: int| 0 <= i < ps.len() ==> valid_label(#[trigger] ps[i])) {
        Err(Error::InvalidLabel)
    } else if name_bytes(ps).len() > 255 || ps.len() > 126 {
        Err(Error::NameTooLong)
    } else {
        Ok(ps)
    }
}

/// Relies on str::from_utf8: bytes below 128 are valid UTF-8 and decode to
/// one character per byte.
#[verifier::external_body]
pub(crate) fn ascii_str(bytes: &[u8]) -> (r: &str)
    requires
        forall|i: int| 0 <= i < bytes@.len() ==> bytes@[i] < 128,
    ensures
        r@ == chars_of(bytes@),
{
    core::str::from_utf8(bytes).unwrap_or("")
}

pub fn byte_is_valid(b: u8) -> (r: bool)
    ensures
        r == valid_label_byte(b),
{
    (48 <= b && b <= 57) || (65 <= b && b <= 90) || (97 <= b && b <= 122) || b == 45 || b == 95
}

/// A single DNS label, 1 to 63 bytes from the accepted charset.
#[derive(Clone, Debug)]
pub struct Label {
    bytes: Vec<u8>,
}

impl View for Label {
    type V = Seq<u8>;

    closed spec fn view(&self) -> Seq<u8> {
        self.bytes@
    }
}

impl Label {
    /// Well-formedness: the charset and length bounds hold.
    pub open spec fn wf(&self) -> bool {
        valid_label(self@)
    }

    /// Builds a label from validated raw bytes.
    #[verifier::loop_isolation(false)]
    pub fn from_bytes(bytes: Vec<u8>) -> (r: Result<Label, Error>)
        ensures
            match r {
                Ok(l) => valid_label(bytes@) && l@ == bytes@,
                Err(e) => !valid_label(bytes@) && e == Error::InvalidLabel,
            },
    {
        if bytes.len() == 0 || bytes.len() > 63 {
            return Err(Error::InvalidLabel);
        }
        let mut i: usize = 0;
        while i < bytes.len()
            invariant
                i <= bytes@.len(),
                forall|k: int| 0 <= k < i ==> valid_label_byte(bytes@[k]),
            decreases bytes@.len() - i,
        {
            if !byte_is_valid(bytes[i]) {
                return Err(Error::InvalidLabel);
            }
            i += 1;
        }
        Ok(Label { bytes })
    }

    #[verifier::loop_isolation(false)]
    pub fn from_str(s: &str) -> (r: Result<Label, Error>)
        ensures
            match r {
                Ok(l) => valid_label(s.spec_bytes()) && l@ == s.spec_bytes(),
                Err(e) => !valid_label(s.spec_bytes()) && e == Error::InvalidLabel,
            },
    {
        let bytes = s.as_bytes();
        let mut copy: Vec<u8> = Vec::new();
        let mut i: usize = 0;
        while i < bytes.len()
            invariant
                i <= bytes@.len(),
                copy@ == bytes@.subrange(0, i as int),
            decreases bytes@.len() - i,
        {
            copy.push(bytes[i]);
            i += 1;
            proof {
                assert(copy@ =~= bytes@.subrange(0, i as int));
            }
        }
        proof {
            assert(copy@ =~= bytes@);
        }
        Label::from_bytes(copy)
    }

    pub fn from_string(s: String) -> (r: Result<Label, Error>)
        ensures
            match r {
                Ok(l) => valid_label(encode_utf8(s@)) && l@ == encode_utf8(s@),
                Err(e) => !valid_label(encode_utf8(s@)) && e == Error::InvalidLabel,
            },
    {
        Label::from_str(s.as_str())
    }

    pub fn as_str(&self) -> (r: &str)
        requires
            self.wf(),
        ensures
            r@ == chars_of(self@),
    {
        proof {
            assert(forall|i: int| 0 <= i < self@.len() ==> self@[i] < 128);
        }
        ascii_str(self.bytes.as_slice())
    }

    #[verifier::loop_isolation(false)]
    pub fn len(&self) -> (r: usize)
        ensures
            r == self@.len(),
    {
        self.bytes.len()
    }

    /// Appends the wire form of this label: a length byte, then the bytes.
    #[verifier::loop_isolation(false)]
    pub fn serialize(&self, out: &mut Vec<u8>) -> (r: Result<(), Error>)
        requires
            self.wf(),
        ensures
            r is Ok,
            final(out)@ == old(out)@ + label_bytes(self@),
    {
        push_u8(out, self.bytes.len() as u8);
        let mut i: usize = 0;
        while i < self.bytes.len()
            invariant
                i <= self@.len(),
                out@ == old(out)@ + seq![self@.len() as u8] + self@.subrange(0, i as int),
            decreases self@.len() - i,
        {
            let b = self.bytes[i];
            out.push(b);
            i += 1;
            proof {
                assert(out@ =~= old(out)@ + seq![self@.len() as u8] + self@.subrange(0, i as int));
            }
        }
        proof {
            assert(out@ =~= old(out)@ + label_bytes(self@));
        }
        Ok(())
    }
}

/// The views of a sequence of labels.
pub open spec fn labels_view(s: Seq<Label>) -> Seq<Seq<u8>> {
    Seq::new(s.len(), |i: int| s[i]@)
}

/// An `Option<usize>` read at spec level.
pub open spec fn opt_int(o: Option<usize>) -> Option<int> {
    match o {
        Option::Some(v) => Option::Some(v as int),
        Option::None => Option::None,
    }
}

/// The octets of the labels themselves, length bytes not counted.
pub open spec fn labels_len(n: Seq<Seq<u8>>) -> int
    decreases n.len(),
{
    if n.len() == 0 {
        0int
    } else {
        n[0].len() + labels_len(n.drop_first())
    }
}

/// Label octets never count negative, and relate to the wire form by one
/// length byte per label plus the terminator.
pub proof fn lemma_labels_len_nonneg(n: Seq<Seq<u8>>)
    ensures
        labels_len(n) >= 0,
        labels_bytes(n).len() == labels_len(n) + n.len(),
    decreases n.len(),
{
    if n.len() > 0 {
        lemma_labels_len_nonneg(n.drop_first());
    }
}

/// Labels already read, prepended twice, collapse into one prepend.
pub proof fn lemma_prepend_assoc(
    a: Seq<Seq<u8>>,
    b: Seq<Seq<u8>>,
    r: Result<(Seq<Seq<u8>>, int), Error>,
)
    ensures
        prepend_labels(a, prepend_labels(b, r)) == prepend_labels(a + b, r),
{
    match r {
        Ok(t) => {
            assert(a + (b + t.0) =~= (a + b) + t.0);
        },
        Err(_) => {},
    }
}

/// The piece before the first dot is exactly the dotless prefix.
pub proof fn lemma_piece_len_at(s: Seq<u8>, k: int)
    requires
        0 <= k <= s.len(),
        forall|i: int| 0 <= i < k ==> s[i] != 46,
        k < s.len() ==> s[k] == 46,
    ensures
        piece_len(s) == k,
    decreases s.len(),
{
    if s.len() == 0 {
    } else if s[0] == 46 {
        assert(k == 0);
    } else {
        assert(k > 0);
        lemma_piece_len_at(s.drop_first(), k - 1);
    }
}

/// Appending a label on the right extends the text on the right, with a dot
/// between unless the name was the root.
pub proof fn lemma_name_text_push(n: Seq<Seq<u8>>, l: Seq<u8>)
    ensures
        name_text(n.push(l)) == if n.len() == 0 {
            l
        } else {
            name_text(n) + seq![46u8] + name_text(seq![l])
        },
    decreases n.len(),
{
    assert(name_text(seq![l]) == l);
    if n.len() == 0 {
        assert(n.push(l)[0] == l);
    } else if n.len() == 1 {
        assert(n.push(l)[0] == n[0]);
        assert(n.push(l).drop_first() =~= seq![l]);
        assert(name_text(n.push(l)) == n[0] + seq![46u8] + l);
    } else {
        assert(n.push(l).drop_first() =~= n.drop_first().push(l));
        assert(n.push(l)[0] == n[0]);
        lemma_name_text_push(n.drop_first(), l);
        assert(n[0] + seq![46u8] + (name_text(n.drop_first()) + seq![46u8] + l) =~= (n[0]
            + seq![46u8] + name_text(n.drop_first())) + seq![46u8] + l);
    }
}

/// Reading a name back from a buffer that holds its uncompressed wire form
/// yields the same labels and stops just past the terminator.
pub proof fn lemma_name_rec_of_serialized(d: Seq<u8>, pos: int, n: Seq<Seq<u8>>, fuel: nat)
    requires
        forall|i: int| 0 <= i < n.len() ==> valid_label(#[trigger] n[i]),
        n.len() + 1 <= fuel,
        0 <= pos,
        pos + name_bytes(n).len() <= d.len(),
        d.subrange(pos, pos + name_bytes(n).len()) == name_bytes(n),
    ensures
        name_rec(d, pos, Option::None, fuel) == Ok::<(Seq<Seq<u8>>, int), Error>(
            (n, pos + name_bytes(n).len()),
        ),
    decreases n.len(),
{
    if n.len() == 0 {
        assert(name_bytes(n) =~= seq![0u8]);
        assert(d[pos] == d.subrange(pos, pos + 1)[0]);
        assert(d[pos] == 0);
        assert(fuel > 0 && 0 <= pos < d.len());
        assert(name_rec(d, pos, Option::None, fuel) == Ok::<(Seq<Seq<u8>>, int), Error>(
            (Seq::<Seq<u8>>::empty(), pos + 1),
        ));
        assert(n =~= Seq::<Seq<u8>>::empty());
        assert(name_bytes(n).len() == 1);
    } else {
        let l = n[0];
        let rest = n.drop_first();
        assert(valid_label(l));
        assert(labels_bytes(n) == label_bytes(l) + labels_bytes(rest));
        assert(name_bytes(n) =~= label_bytes(l) + name_bytes(rest));
        let llen = l.len() as int;
        assert forall|i: int| 0 <= i < name_bytes(n).len() implies d[pos + i] == name_bytes(
            n,
        )[i] by {
            assert(d.subrange(pos, pos + name_bytes(n).len())[i] == d[pos + i]);
        }
        assert(d[pos + 0] == name_bytes(n)[0]);
        assert(name_bytes(n)[0] == label_bytes(l)[0]);
        assert(label_bytes(l)[0] == l.len() as u8);
        assert(1 <= l.len() <= 63);
        assert forall|k: int| 0 <= k < llen implies d.subrange(pos + 1, pos + 1 + llen)[k]
            == l[k] by {
            assert(d[pos + (1 + k)] == name_bytes(n)[1 + k]);
            assert(name_bytes(n)[1 + k] == label_bytes(l)[1 + k]);
            assert(label_bytes(l)[1 + k] == l[k]);
        }
        assert(d.subrange(pos + 1, pos + 1 + llen) =~= l);
        let pos2 = pos + 1 + llen;
        let restlen = name_bytes(rest).len() as int;
        assert forall|k: int| 0 <= k < restlen implies d.subrange(pos2, pos2 + restlen)[k]
            == name_bytes(rest)[k] by {
            assert(d[pos + (1 + llen + k)] == name_bytes(n)[1 + llen + k]);
            assert(name_bytes(n)[1 + llen + k] == name_bytes(rest)[k]);
        }
        assert(d.subrange(pos2, pos2 + name_bytes(rest).len()) =~= name_bytes(rest));
        lemma_name_rec_of_serialized(d, pos2, rest, (fuel - 1) as nat);
        assert(name_bytes(n).len() == 1 + llen + restlen);
        assert(fuel > 0 && 0 <= pos < d.len());
        let b = d[pos];
        assert(b != 0 && b < 64);
        assert(pos + 1 + b <= d.len());
        assert(valid_label(d.subrange(pos + 1, pos + 1 + b)));
        assert(name_rec(d, pos, Option::None, fuel) == Ok::<(Seq<Seq<u8>>, int), Error>(
            (seq![d.subrange(pos + 1, pos + 1 + b)] + rest, pos2 + restlen),
        ));
        assert(seq![d.subrange(pos + 1, pos + 1 + b)] + rest =~= n);
    }
}

/// Parsing the uncompressed wire form of a well-formed name restores it.
pub proof fn lemma_parse_of_serialized_name(d: Seq<u8>, pos: int, n: Seq<Seq<u8>>)
    requires
        valid_name(n),
        0 <= pos,
        pos + name_bytes(n).len() <= d.len(),
        d.subrange(pos, pos + name_bytes(n).len()) == name_bytes(n),
    ensures
        spec_parse_name(d, pos) == Ok::<(Seq<Seq<u8>>, int), Error>(
            (n, pos + name_bytes(n).len()),
        ),
{
    lemma_name_rec_of_serialized(d, pos, n, 127);
}

/// A compression pointer that targets its own position spins until the step
/// budget runs out: the reader fails with `NameTooLong` within the hop bound
/// instead of looping forever.
pub proof fn lemma_pointer_cycle_fails(d: Seq<u8>, pos: int, resume: Option<int>, fuel: nat)
    requires
        0 <= pos,
        pos + 2 <= d.len(),
        d[pos] >= 192,
        (d[pos] - 192) * 256 + d[pos + 1] == pos,
    ensures
        name_rec(d, pos, resume, fuel) == Err::<(Seq<Seq<u8>>, int), Error>(Error::NameTooLong),
    decreases fuel,
{
    if fuel > 0 {
        let jump_resume = match resume {
            Option::Some(r) => Option::Some(r),
            Option::None => Option::Some(pos + 2),
        };
        lemma_pointer_cycle_fails(d, pos, jump_resume, (fuel - 1) as nat);
    }
}

/// A name whose first byte is a self-targeting pointer fails to parse with
/// `NameTooLong`.
pub proof fn lemma_parse_pointer_cycle(d: Seq<u8>, pos: int)
    requires
        0 <= pos,
        pos + 2 <= d.len(),
        d[pos] >= 192,
        (d[pos] - 192) * 256 + d[pos + 1] == pos,
    ensures
        spec_parse_name(d, pos) == Err::<(Seq<Seq<u8>>, int), Error>(Error::NameTooLong),
{
    lemma_pointer_cycle_fails(d, pos, Option::None, 127);
}

/// An ordered sequence of labels forming a domain name, head first; the root
/// is the empty sequence.
#[derive(Clone, Debug)]
pub struct Name {
    labels: Vec<Label>,
}

impl View for Name {
    type V = Seq<Seq<u8>>;

    closed spec fn view(&self) -> Seq<Seq<u8>> {
        labels_view(self.labels@)
    }
}

impl Name {
    /// Well-formedness: every label is well formed, the wire form fits in
    /// 255 octets, and the label count stays within the reader's budget.
    pub open spec fn wf(&self) -> bool {
        valid_name(self@)
    }

    /// The root name: no labels at all.
    pub fn root() -> (r: Name)
        ensures
            r@ =~= Seq::<Seq<u8>>::empty(),
            r.wf(),
    {
        Name { labels: Vec::new() }
    }

    /// Reads a possibly compressed name from `data` at `pos`, returning the
    /// name and the position where the outer record continues.
    #[verifier::loop_isolation(false)]
    pub fn parse(data: &[u8], pos: usize) -> (r: Result<(Name, usize), Error>)
        ensures
            match r {
                Ok(t) => spec_parse_name(data@, pos as int) == Ok::<(Seq<Seq<u8>>, int), Error>(
                    (t.0@, t.1 as int),
                ) && t.0.wf() && t.1 <= data@.len(),
                Err(e) => spec_parse_name(data@, pos as int) == Err::<(Seq<Seq<u8>>, int), Error>(
                    e,
                ),
            },
    {
        let ghost d = data@;
        let mut labels: Vec<Label> = Vec::new();
        let mut p: usize = pos;
        let mut resume: Option<usize> = None;
        let mut wire: usize = 0;
        let mut i: usize = 0;
        while i < 127
            invariant
                i <= 127,
                labels@.len() <= i,
                wire <= 64 * i,
                wire == labels_bytes(labels_view(labels@)).len(),
                forall|k: int| 0 <= k < labels@.len() ==> valid_label(#[trigger] labels@[k]@),
                match resume {
                    Option::Some(rp) => rp <= d.len(),
                    Option::None => true,
                },
                name_rec(d, pos as int, Option::None, 127) == prepend_labels(
                    labels_view(labels@),
                    name_rec(d, p as int, opt_int(resume), (127 - i) as nat),
                ),
                d == data@,
            decreases 127 - i,
        {
            let ghost acc = labels_view(labels@);
            let ghost fuel = (127 - i) as nat;
            if p >= data.len() {
                proof {
                    assert(name_rec(d, p as int, opt_int(resume), fuel) == Err::<
                        (Seq<Seq<u8>>, int),
                        Error,
                    >(Error::IoError));
                }
                return Err(Error::IoError);
            }
            let b = data[p];
            if b == 0 {
                if wire >= 255 {
                    return Err(Error::NameTooLong);
                }
                let end: usize = match resume {
                    Option::Some(rp) => rp,
                    Option::None => p + 1,
                };
                proof {
                    assert(acc + Seq::<Seq<u8>>::empty() =~= acc);
                }
                let n = Name { labels };
                return Ok((n, end));
            } else if b >= 192 {
                if p + 1 >= data.len() {
                    return Err(Error::IoError);
                }
                let off = ((b - 192) as usize) * 256 + (data[p + 1] as usize);
                if resume.is_none() {
                    resume = Some(p + 2);
                }
                p = off;
                i += 1;
            } else if b < 64 {
                let blen = b as usize;
                if data.len() - (p + 1) < blen {
                    return Err(Error::IoError);
                }
                let ghost piece = d.subrange(p + 1, p + 1 + blen);
                let mut lab: Vec<u8> = Vec::new();
                let mut j: usize = 0;
                while j < blen
                    invariant
                        j <= blen,
                        lab@ == d.subrange(p as int + 1, p + 1 + j),
                        forall|k: int| 0 <= k < j ==> valid_label_byte(#[trigger] lab@[k]),
                    decreases blen - j,
                {
                    let byte = data[p + 1 + j];
                    if !byte_is_valid(byte) {
                        proof {
                            assert(piece[j as int] == d[p + 1 + j as int]);
                            assert(!valid_label_byte(piece[j as int]));
                            assert(!valid_label(piece));
                        }
                        return Err(Error::InvalidLabel);
                    }
                    lab.push(byte);
                    j += 1;
                    proof {
                        assert(lab@ =~= d.subrange(p as int + 1, p + 1 + j));
                    }
                }
                proof {
                    assert(valid_label(piece));
                }
                labels.push(Label { bytes: lab });
                wire = wire + 1 + blen;
                let ghost old_p = p as int;
                p = p + 1 + blen;
                i += 1;
                proof {
                    assert(labels_view(labels@) =~= acc.push(piece));
                    assert(acc.push(piece) =~= acc + seq![piece]);
                    lemma_labels_bytes_push(acc, piece);
                    assert(name_rec(d, old_p, opt_int(resume), fuel) == prepend_labels(
                        seq![piece],
                        name_rec(d, p as int, opt_int(resume), (fuel - 1) as nat),
                    ));
                    lemma_prepend_assoc(
                        acc,
                        seq![piece],
                        name_rec(d, p as int, opt_int(resume), (fuel - 1) as nat),
                    );
                }
            } else {
                return Err(Error::UnknownLabelFormat);
            }
        }
        Err(Error::NameTooLong)
    }

    /// Writes the uncompressed wire form: each label, then the zero byte.
    #[verifier::loop_isolation(false)]
    pub fn serialize(&self, out: &mut Vec<u8>) -> (r: Result<(), Error>)
        requires
            self.wf(),
        ensures
            r is Ok,
            final(out)@ == old(out)@ + name_bytes(self@),
    {
        let mut i: usize = 0;
        while i < self.labels.len()
            invariant
                i <= self.labels@.len(),
                self.wf(),
                out@ == old(out)@ + labels_bytes(self@.subrange(0, i as int)),
            decreases self.labels@.len() - i,
        {
            let ghost prefix = self@.subrange(0, i as int);
            proof {
                assert(self@[i as int] == self.labels@[i as int]@);
            }
            let r = self.labels[i].serialize(out);
            proof {
                assert(self@.subrange(0, i + 1) =~= prefix.push(self@[i as int]));
                lemma_labels_bytes_push(prefix, self@[i as int]);
                assert(out@ =~= old(out)@ + labels_bytes(self@.subrange(0, i + 1)));
            }
            i += 1;
        }
        push_u8(out, 0);
        proof {
            assert(self@.subrange(0, self@.len() as int) =~= self@);
            assert(out@ =~= old(out)@ + name_bytes(self@));
        }
        Ok(())
    }

    /// Prepends a label at the head of the name.
    pub fn push(&mut self, l: Label)
        requires
            old(self).wf(),
            l.wf(),
            name_bytes(old(self)@).len() + 1 + l@.len() <= 255,
            old(self)@.len() < 126,
        ensures
            final(self).wf(),
            final(self)@ == seq![l@] + old(self)@,
    {
        self.labels.insert(0, l);
        proof {
            assert(self@ =~= seq![l@] + old(self)@);
            assert(self@.drop_first() =~= old(self)@);
            assert(labels_bytes(self@) =~= label_bytes(l@) + labels_bytes(old(self)@));
        }
    }

    /// Removes the head label; the root name stays the root.
    pub fn pop(&mut self)
        ensures
            final(self)@ == if old(self)@.len() == 0 {
                old(self)@
            } else {
                old(self)@.drop_first()
            },
            old(self).wf() ==> final(self).wf(),
    {
        if self.labels.len() > 0 {
            let ghost before = self@;
            self.labels.remove(0);
            proof {
                assert(self@ =~= before.drop_first());
                if valid_name(before) {
                    assert(labels_bytes(before) =~= label_bytes(before[0]) + labels_bytes(
                        before.drop_first(),
                    ));
                }
            }
        }
    }

    /// How many labels the name has.
    pub fn label_count(&self) -> (r: usize)
        ensures
            r == self@.len(),
    {
        self.labels.len()
    }

    /// A borrow of the label at `i`, head first.
    pub fn get_label(&self, i: usize) -> (r: &Label)
        requires
            i < self@.len(),
        ensures
            r@ == self@[i as int],
    {
        &self.labels[i]
    }

    /// The octets of the labels themselves: label lengths summed, length
    /// bytes and separators not included.
    #[verifier::loop_isolation(false)]
    pub fn len(&self) -> (r: usize)
        requires
            self.wf(),
        ensures
            r == labels_len(self@),
    {
        proof {
            lemma_labels_len_nonneg(self@);
        }
        let mut acc: usize = 0;
        let mut i: usize = 0;
        proof {
            assert(self@.skip(0) =~= self@);
        }
        while i < self.labels.len()
            invariant
                i <= self@.len(),
                acc + labels_len(self@.skip(i as int)) == labels_len(self@),
                acc <= 255,
            decreases self@.len() - i,
        {
            let ghost rest = self@.skip(i as int);
            proof {
                assert(rest.drop_first() =~= self@.skip(i + 1));
                lemma_labels_len_nonneg(rest.drop_first());
                lemma_labels_len_nonneg(self@);
                assert(labels_bytes(self@).len() <= 254);
            }
            acc = acc + self.labels[i].len();
            i += 1;
        }
        proof {
            assert(self@.skip(self@.len() as int) =~= Seq::<Seq<u8>>::empty());
        }
        acc
    }

    /// Splits text on dots and validates every piece as a label.
    #[verifier::loop_isolation(false)]
    pub fn from_str(s: &str) -> (r: Result<Name, Error>)
        ensures
            match r {
                Ok(n) => spec_name_from_text(s.spec_bytes()) == Ok::<Seq<Seq<u8>>, Error>(n@)
                    && n.wf(),
                Err(e) => spec_name_from_text(s.spec_bytes()) == Err::<Seq<Seq<u8>>, Error>(e),
            },
    {
        let b = s.as_bytes();
        let ghost t = b@;
        let mut labels: Vec<Label> = Vec::new();
        let mut cur: Vec<u8> = Vec::new();
        let ghost mut st: int = 0;
        let mut j: usize = 0;
        proof {
            assert(t.skip(0) =~= t);
            assert(labels_view(labels@) + split_text(t.skip(0)) =~= split_text(t));
        }
        while j < b.len()
            invariant
                j <= t.len(),
                0 <= st <= j,
                cur@ == t.subrange(st, j as int),
                forall|i: int| st <= i < j ==> t[i] != 46,
                forall|k: int| 0 <= k < labels@.len() ==> valid_label(#[trigger] labels@[k]@),
                split_text(t) =~= labels_view(labels@) + split_text(t.skip(st)),
            decreases t.len() - j,
        {
            let byte = b[j];
            if byte == 46 {
                let ghost rest = t.skip(st);
                let ghost piece = cur@;
                proof {
                    assert forall|i: int| 0 <= i < j - st implies rest[i] != 46 by {
                        assert(rest[i] == t[st + i]);
                    }
                    assert(rest[j - st] == t[j as int]);
                    lemma_piece_len_at(rest, j - st);
                    assert(rest.subrange(0, j - st) =~= piece);
                    assert(rest.subrange(j - st + 1, rest.len() as int) =~= t.skip(j + 1));
                    assert(split_text(rest) == seq![piece] + split_text(t.skip(j + 1)));
                }
                match Label::from_bytes(cur) {
                    Ok(l) => {
                        labels.push(l);
                        proof {
                            assert(labels_view(labels@) =~= labels_view(labels@.drop_last())
                                + seq![piece]);
                            assert((labels_view(labels@.drop_last()) + seq![piece]) + split_text(
                                t.skip(j + 1),
                            ) =~= labels_view(labels@.drop_last()) + (seq![piece] + split_text(
                                t.skip(j + 1),
                            )));
                        }
                    },
                    Err(e) => {
                        proof {
                            let ps = split_text(t);
                            let idx = labels_view(labels@).len() as int;
                            assert(ps[idx] == piece);
                            assert(!valid_label(ps[idx]));
                        }
                        return Err(e);
                    },
                }
                cur = Vec::new();
                proof {
                    st = j + 1;
                    assert(cur@ =~= t.subrange(st, j + 1));
                }
            } else {
                cur.push(byte);
                proof {
                    assert(cur@ =~= t.subrange(st, j + 1));
                }
            }
            j += 1;
        }
        let ghost rest = t.skip(st);
        let ghost piece = cur@;
        proof {
            assert forall|i: int| 0 <= i < rest.len() implies rest[i] != 46 by {
                assert(rest[i] == t[st + i]);
            }
            lemma_piece_len_at(rest, rest.len() as int);
            assert(rest =~= piece);
            assert(split_text(rest) == seq![piece]);
        }
        match Label::from_bytes(cur) {
            Ok(l) => {
                labels.push(l);
                proof {
                    assert(labels_view(labels@) =~= labels_view(labels@.drop_last())
                        + seq![piece]);
                    assert(split_text(t) =~= labels_view(labels@));
                }
            },
            Err(e) => {
                proof {
                    let ps = split_text(t);
                    let idx = labels_view(labels@).len() as int;
                    assert(ps[idx] == piece);
                    assert(!valid_label(ps[idx]));
                }
                return Err(e);
            },
        }
        if labels.len() > 126 {
            return Err(Error::NameTooLong);
        }
        let mut wt: usize = 0;
        let mut k: usize = 0;
        proof {
            assert(labels_view(labels@).subrange(0, 0) =~= Seq::<Seq<u8>>::empty());
        }
        while k < labels.len()
            invariant
                k <= labels@.len(),
                labels@.len() <= 126,
                forall|i: int| 0 <= i < labels@.len() ==> valid_label(#[trigger] labels@[i]@),
                wt == labels_bytes(labels_view(labels@).subrange(0, k as int)).len(),
                wt <= 64 * k,
            decreases labels@.len() - k,
        {
            let ghost prefix = labels_view(labels@).subrange(0, k as int);
            proof {
                assert(labels_view(labels@).subrange(0, k + 1) =~= prefix.push(
                    labels@[k as int]@,
                ));
                lemma_labels_bytes_push(prefix, labels@[k as int]@);
            }
            wt = wt + 1 + labels[k].len();
            k += 1;
        }
        proof {
            assert(labels_view(labels@).subrange(0, labels@.len() as int) =~= labels_view(
                labels@,
            ));
        }
        if wt + 1 > 255 {
            return Err(Error::NameTooLong);
        }
        Ok(Name { labels })
    }

    pub fn from_string(s: String) -> (r: Result<Name, Error>)
        ensures
            match r {
                Ok(n) => spec_name_from_text(encode_utf8(s@)) == Ok::<Seq<Seq<u8>>, Error>(n@)
                    && n.wf(),
                Err(e) => spec_name_from_text(encode_utf8(s@)) == Err::<Seq<Seq<u8>>, Error>(e),
            },
    {
        Name::from_str(s.as_str())
    }

    /// The labels joined by dots; the root name gives the empty text.
    #[verifier::loop_isolation(false)]
    pub fn to_string(&self) -> (r: String)
        requires
            self.wf(),
        ensures
            r@ == chars_of(name_text(self@)),
    {
        let mut text: Vec<u8> = Vec::new();
        let mut i: usize = 0;
        proof {
            assert(self@.subrange(0, 0) =~= Seq::<Seq<u8>>::empty());
        }
        while i < self.labels.len()
            invariant
                i <= self@.len(),
                text@ == name_text(self@.subrange(0, i as int)),
                forall|k: int| 0 <= k < text@.len() ==> text@[k] < 128,
            decreases self@.len() - i,
        {
            let ghost prefix = self@.subrange(0, i as int);
            let ghost piece = self@[i as int];
            if i > 0 {
                text.push(46);
            }
            let lab = &self.labels[i];
            proof {
                assert(piece == lab@);
                assert(valid_label(piece));
            }
            let mut j: usize = 0;
            let ghost mark = text@;
            while j < lab.bytes.len()
                invariant
                    j <= piece.len(),
                    lab@ == piece,
                    valid_label(piece),
                    text@ == mark + piece.subrange(0, j as int),
                    forall|k: int| 0 <= k < mark.len() ==> mark[k] < 128,
                    forall|k: int| 0 <= k < text@.len() ==> text@[k] < 128,
                decreases piece.len() - j,
            {
                text.push(lab.bytes[j]);
                j += 1;
                proof {
                    assert(text@ =~= mark + piece.subrange(0, j as int));
                }
            }
            proof {
                assert(piece.subrange(0, piece.len() as int) =~= piece);
                assert(self@.subrange(0, i + 1) =~= prefix.push(piece));
                lemma_name_text_push(prefix, piece);
                if i > 0 {
                    assert(text@ =~= name_text(prefix) + seq![46u8] + piece);
                } else {
                    assert(text@ =~= piece);
                }
            }
            i += 1;
        }
        proof {
            assert(self@.subrange(0, self@.len() as int) =~= self@);
        }
        let slice = ascii_str(text.as_slice());
        slice.to_owned()
    }
}

} // verus!

