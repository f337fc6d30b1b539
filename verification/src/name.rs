//! Domain names: label sequences on the wire, with compression pointers
//! followed on decode and never produced on encode.

use vstd::prelude::*;
use crate::error::DnsError;
use crate::wire::copy_range;

verus! {

/// The longest label a well-formed name may hold.
pub const MAX_LABEL_LEN: usize = 63;

/// The number of compression pointers one name may lead through.
pub const MAX_POINTER_HOPS: usize = 16;

/// The first byte value that marks a compression pointer: the top two bits
/// set.
pub const POINTER_MARK: u8 = 192;

/// A domain name as its labels, from the leftmost on, each without its
/// length byte. The root name has no label.
#[derive(Clone, Debug, Default, PartialEq, Eq)]
pub struct Name {
    pub labels: Vec<Vec<u8>>,
}

impl View for Name {
    type V = Seq<Seq<u8>>;

    open spec fn view(&self) -> Seq<Seq<u8>> {
        self.labels@.map_values(|l: Vec<u8>| l@)
    }
}

/// A label sequence that can be written to the wire: no label is empty and
/// none is longer than 63 bytes.
pub open spec fn valid_labels(labels: Seq<Seq<u8>>) -> bool {
    forall|i: int| 0 <= i < labels.len() ==> 1 <= (#[trigger] labels[i]).len() <= MAX_LABEL_LEN
}

/// The wire form of the labels alone: each label behind its length byte.
pub open spec fn spec_encode_labels(labels: Seq<Seq<u8>>) -> Seq<u8>
    decreases labels.len(),
{
    if labels.len() == 0 {
        Seq::empty()
    } else {
        seq![labels[0].len() as u8] + labels[0] + spec_encode_labels(labels.drop_first())
    }
}

/// The uncompressed wire form of a name: its labels, then a zero byte.
pub open spec fn spec_encode_name(labels: Seq<Seq<u8>>) -> Seq<u8> {
    spec_encode_labels(labels) + seq![0u8]
}

/// The labels joined by dots, as a name is written in text.
pub open spec fn spec_dotted(labels: Seq<Seq<u8>>) -> Seq<u8>
    decreases labels.len(),
{
    if labels.len() == 0 {
        Seq::empty()
    } else if labels.len() == 1 {
        labels[0]
    } else {
        spec_dotted(labels.drop_last()) + seq![46u8] + labels.last()
    }
}

/// The offset that the pointer bytes `hi`, `lo` name: the low 14 bits.
pub open spec fn spec_pointer_target(hi: u8, lo: u8) -> int {
    (hi - POINTER_MARK) * 256 + lo
}

/// Puts `prefix` in front of the labels of a successful result and leaves an
/// error as it is.
pub open spec fn spec_prepend(prefix: Seq<Seq<u8>>, r: Result<Seq<Seq<u8>>, DnsError>) -> Result<
    Seq<Seq<u8>>,
    DnsError,
> {
    match r {
        Ok(rest) => Ok(prefix + rest),
        Err(e) => Err(e),
    }
}

/// The labels of the name that is read from `pos` on. `visited` holds the
/// offsets at which a stretch of this name began: the offset the name starts
/// at and the target of each pointer followed so far.
///
/// A length byte of zero ends the name. A byte with the top two bits set
/// forms a pointer with the byte behind it: reading goes on at its target,
/// unless the target is not before the pointer, was visited already, or 16
/// pointers were followed before it. A byte up to 63 is the length of the
/// label that follows it. No other byte may stand there.
pub open spec fn spec_read_labels(buf: Seq<u8>, pos: int, visited: Seq<usize>) -> Result<
    Seq<Seq<u8>>,
    DnsError,
>
    decreases MAX_POINTER_HOPS + 1 - visited.len(), buf.len() - pos,
{
    if pos < 0 || pos >= buf.len() {
        Err(DnsError::TruncatedBuffer)
    } else if buf[pos] == 0 {
        Ok(Seq::empty())
    } else if buf[pos] >= POINTER_MARK {
        if pos + 1 >= buf.len() {
            Err(DnsError::TruncatedBuffer)
        } else {
            let target = spec_pointer_target(buf[pos], buf[pos + 1]);
            if target >= pos || visited.contains(target as usize) || visited.len()
                > MAX_POINTER_HOPS {
                Err(DnsError::CompressionLoop)
            } else {
                spec_read_labels(buf, target, visited.push(target as usize))
            }
        }
    } else if buf[pos] > MAX_LABEL_LEN {
        Err(DnsError::InvalidLabel)
    } else {
        let next = pos + 1 + buf[pos];
        if next > buf.len() {
            Err(DnsError::TruncatedBuffer)
        } else {
            spec_prepend(
                seq![buf.subrange(pos + 1, next)],
                spec_read_labels(buf, next, visited),
            )
        }
    }
}

/// The number of bytes that the name at `pos` occupies at that place: its
/// labels up to and with the zero byte, or up to and with the first pointer.
/// What a pointer leads to is not counted.
pub open spec fn spec_name_span(buf: Seq<u8>, pos: int) -> int
    decreases buf.len() - pos,
{
    if pos < 0 || pos >= buf.len() {
        0
    } else if buf[pos] == 0 {
        1
    } else if buf[pos] >= POINTER_MARK {
        2
    } else if pos + 1 + buf[pos] > buf.len() {
        0
    } else {
        1 + buf[pos] + spec_name_span(buf, pos + 1 + buf[pos])
    }
}

/// What decoding a name at `start` gives: its labels with every pointer
/// followed, and the bytes it occupies at `start`.
pub open spec fn spec_decode_name(buf: Seq<u8>, start: usize) -> Result<
    (Seq<Seq<u8>>, int),
    DnsError,
> {
    if start > buf.len() {
        Err(DnsError::OutOfBounds { offset: start, len: buf.len() as usize })
    } else {
        match spec_read_labels(buf, start as int, seq![start]) {
            Ok(labels) => Ok((labels, spec_name_span(buf, start as int))),
            Err(e) => Err(e),
        }
    }
}

impl Name {
    /// No label is empty and none is longer than 63 bytes.
    pub open spec fn wf(&self) -> bool {
        valid_labels(self@)
    }

    /// Tells whether the name can be written to the wire.
    pub fn is_well_formed(&self) -> (b: bool)
        ensures
            b == self.wf(),
    {
        let mut i: usize = 0;
        while i < self.labels.len()
            invariant
                i <= self.labels.len(),
                forall|j: int| 0 <= j < i ==> 1 <= (#[trigger] self@[j]).len() <= 63,
            decreases self.labels.len() - i,
        {
            let n: usize = self.labels[i].len();
            if n < 1 || n > MAX_LABEL_LEN {
                assert(!(1 <= self@[i as int].len() <= 63));
                return false;
            }
            i = i + 1;
        }
        true
    }

    /// The name in text form: its labels joined by dots.
    pub fn dotted(&self) -> (text: Vec<u8>)
        ensures
            text@ == spec_dotted(self@),
    {
        let mut out: Vec<u8> = Vec::new();
        let mut i: usize = 0;
        while i < self.labels.len()
            invariant
                i <= self.labels.len(),
                out@ == spec_dotted(self@.take(i as int)),
            decreases self.labels.len() - i,
        {
            let ghost before = out@;
            if i > 0 {
                out.push(46u8);
            }
            let label = &self.labels[i];
            let mut j: usize = 0;
            while j < label.len()
                invariant
                    j <= label.len(),
                    out@ == (if i > 0 {
                        before + seq![46u8]
                    } else {
                        before
                    }) + label@.take(j as int),
                decreases label.len() - j,
            {
                out.push(label[j]);
                assert(label@.take(j + 1) =~= label@.take(j as int).push(label@[j as int]));
                j = j + 1;
            }
            proof {
                let cur = self@.take(i + 1);
                assert(label@.take(label.len() as int) =~= label@);
                assert(cur.drop_last() =~= self@.take(i as int));
                assert(cur.last() == label@);
                if i == 0 {
                    assert(before =~= Seq::<u8>::empty());
                    assert(out@ =~= label@);
                }
            }
            i = i + 1;
        }
        assert(self@.take(self.labels.len() as int) =~= self@);
        out
    }
}

/// Tells whether `offset` is among `visited`.
fn was_visited(visited: &Vec<usize>, offset: usize) -> (b: bool)
    ensures
        b == visited@.contains(offset),
{
    let mut i: usize = 0;
    while i < visited.len()
        invariant
            i <= visited.len(),
            forall|j: int| 0 <= j < i ==> visited@[j] != offset,
        decreases visited.len() - i,
    {
        if visited[i] == offset {
            return true;
        }
        i = i + 1;
    }
    false
}

/// Decodes the name that starts at `start`, following compression pointers.
/// Gives the labels of the whole name and the number of bytes that the name
/// occupies at `start`: a pointer counts as its two bytes, whatever it leads
/// to. A decoded name is well formed.
pub fn decode_name(buf: &[u8], start: usize) -> (r: Result<(Name, usize), DnsError>)
    ensures
        match r {
            Ok((name, consumed)) => spec_decode_name(buf@, start) == Ok::<
                (Seq<Seq<u8>>, int),
                DnsError,
            >((name@, consumed as int)) && 1 <= consumed && start + consumed <= buf@.len()
                && name.wf(),
            Err(e) => spec_decode_name(buf@, start) == Err::<(Seq<Seq<u8>>, int), DnsError>(e),
        },
{
    let len: usize = buf.len();
    if start > len {
        return Err(DnsError::OutOfBounds { offset: start, len });
    }
    let mut labels: Vec<Vec<u8>> = Vec::new();
    let mut visited: Vec<usize> = Vec::new();
    visited.push(start);
    let mut pos: usize = start;
    let mut consumed: usize = 0;
    let mut jumped: bool = false;
    let ghost whole = spec_read_labels(buf@, start as int, seq![start]);
    assert(visited@ =~= seq![start]);
    assert(labels@.map_values(|l: Vec<u8>| l@) =~= Seq::<Seq<u8>>::empty());
    assert(spec_prepend(Seq::<Seq<u8>>::empty(), whole) == whole) by {
        if let Ok(rest) = whole {
            assert(Seq::<Seq<u8>>::empty() + rest =~= rest);
        }
    }
    loop
        invariant
            len == buf@.len(),
            start <= len,
            pos <= len,
            1 <= visited@.len() <= 17,
            valid_labels(labels@.map_values(|l: Vec<u8>| l@)),
            whole == spec_read_labels(buf@, start as int, seq![start]),
            whole == spec_prepend(
                labels@.map_values(|l: Vec<u8>| l@),
                spec_read_labels(buf@, pos as int, visited@),
            ),
            !jumped ==> start <= pos && spec_name_span(buf@, start as int) == (pos - start)
                + spec_name_span(buf@, pos as int),
            jumped ==> consumed == spec_name_span(buf@, start as int) && 1 <= consumed && start
                + consumed <= len,
        decreases 17 - visited@.len(), len - pos,
    {
        if pos >= len {
            return Err(DnsError::TruncatedBuffer);
        }
        let b: u8 = buf[pos];
        if b == 0 {
            if !jumped {
                consumed = pos - start + 1;
            }
            proof {
                let sofar = labels@.map_values(|l: Vec<u8>| l@);
                assert(sofar + Seq::<Seq<u8>>::empty() =~= sofar);
            }
            return Ok((Name { labels }, consumed));
        }
        if b >= POINTER_MARK {
            if len - pos < 2 {
                return Err(DnsError::TruncatedBuffer);
            }
            let target: usize = (b - POINTER_MARK) as usize * 256 + buf[pos + 1] as usize;
            if target >= pos || was_visited(&visited, target) || visited.len()
                > MAX_POINTER_HOPS {
                return Err(DnsError::CompressionLoop);
            }
            if !jumped {
                consumed = pos - start + 2;
                jumped = true;
            }
            visited.push(target);
            pos = target;
        } else if b as usize > MAX_LABEL_LEN {
            return Err(DnsError::InvalidLabel);
        } else {
            let n: usize = b as usize;
            if len - pos - 1 < n {
                return Err(DnsError::TruncatedBuffer);
            }
            let label = copy_range(buf, pos + 1, pos + 1 + n);
            proof {
                let sofar = labels@.map_values(|l: Vec<u8>| l@);
                let rest = spec_read_labels(buf@, pos + 1 + n, visited@);
                assert(labels@.push(label).map_values(|l: Vec<u8>| l@) =~= sofar.push(label@));
                assert(valid_labels(sofar.push(label@))) by {
                    assert forall|i: int| 0 <= i < sofar.push(label@).len() implies 1 <= (
                    #[trigger] sofar.push(label@)[i]).len() <= 63 by {
                        if i < sofar.len() {
                            assert(sofar.push(label@)[i] == sofar[i]);
                        }
                    }
                }
                if let Ok(tail) = rest {
                    assert(sofar + (seq![label@] + tail) =~= sofar.push(label@) + tail);
                }
            }
            labels.push(label);
            pos = pos + 1 + n;
        }
    }
}

/// Appends the uncompressed wire form of `name` to `out`.
pub fn write_name(out: &mut Vec<u8>, name: &Name)
    requires
        name.wf(),
    ensures
        final(out)@ == old(out)@ + spec_encode_name(name@),
{
    let mut i: usize = 0;
    assert(name@.take(0) =~= Seq::<Seq<u8>>::empty());
    assert(out@ =~= old(out)@ + spec_encode_labels(name@.take(0)));
    while i < name.labels.len()
        invariant
            i <= name.labels.len(),
            name.wf(),
            out@ == old(out)@ + spec_encode_labels(name@.take(i as int)),
        decreases name.labels.len() - i,
    {
        let label = &name.labels[i];
        let ghost before = out@;
        assert(1 <= name@[i as int].len() <= 63);
        out.push(label.len() as u8);
        let mut j: usize = 0;
        while j < label.len()
            invariant
                j <= label.len(),
                out@ == before + seq![label@.len() as u8] + label@.take(j as int),
            decreases label.len() - j,
        {
            out.push(label[j]);
            assert(label@.take(j + 1) =~= label@.take(j as int).push(label@[j as int]));
            j = j + 1;
        }
        proof {
            assert(label@.take(label.len() as int) =~= label@);
            assert(name@.take(i + 1) =~= name@.take(i as int).push(label@));
            lemma_encode_labels_push(name@.take(i as int), label@);
            assert(out@ =~= old(out)@ + spec_encode_labels(name@.take(i + 1)));
        }
        i = i + 1;
    }
    assert(name@.take(name.labels.len() as int) =~= name@);
    out.push(0u8);
    assert(out@ =~= old(out)@ + spec_encode_name(name@));
}

/// Encodes `name` in uncompressed form: its labels, then a zero byte.
pub fn encode_name(name: &Name) -> (bytes: Vec<u8>)
    requires
        name.wf(),
    ensures
        bytes@ == spec_encode_name(name@),
{
    let mut out: Vec<u8> = Vec::new();
    write_name(&mut out, name);
    assert(out@ =~= spec_encode_name(name@));
    out
}

/// Encoding one more label at the end appends its length byte and its bytes.
pub proof fn lemma_encode_labels_push(labels: Seq<Seq<u8>>, label: Seq<u8>)
    ensures
        spec_encode_labels(labels.push(label)) == spec_encode_labels(labels) + seq![
            label.len() as u8,
        ] + label,
    decreases labels.len(),
{
    if labels.len() == 0 {
        let one = labels.push(label);
        assert(one.drop_first() =~= Seq::<Seq<u8>>::empty());
        assert(one[0] == label);
        assert(spec_encode_labels(one.drop_first()) =~= Seq::<u8>::empty());
        assert(spec_encode_labels(labels) =~= Seq::<u8>::empty());
        assert(spec_encode_labels(labels.push(label)) =~= spec_encode_labels(labels) + seq![
            label.len() as u8,
        ] + label);
    } else {
        assert(labels.push(label).drop_first() =~= labels.drop_first().push(label));
        lemma_encode_labels_push(labels.drop_first(), label);
        assert(spec_encode_labels(labels.push(label)) =~= spec_encode_labels(labels) + seq![
            label.len() as u8,
        ] + label);
    }
}

/// The bytes that the encoding of a name takes: one length byte for each
/// label, the labels, and the zero byte.
pub proof fn lemma_encode_name_len(labels: Seq<Seq<u8>>)
    ensures
        spec_encode_name(labels).len() == spec_encode_labels(labels).len() + 1,
        spec_encode_labels(labels).len() >= labels.len(),
    decreases labels.len(),
{
    if labels.len() > 0 {
        lemma_encode_name_len(labels.drop_first());
    }
}

/// Wherever the uncompressed encoding of valid labels lies in a buffer,
/// reading a name at that place gives those labels, whatever was visited
/// before, and the name occupies exactly the bytes of the encoding.
pub proof fn lemma_read_encoded_labels(
    buf: Seq<u8>,
    pos: int,
    labels: Seq<Seq<u8>>,
    visited: Seq<usize>,
)
    requires
        valid_labels(labels),
        0 <= pos,
        pos + spec_encode_name(labels).len() <= buf.len(),
        buf.subrange(pos, pos + spec_encode_name(labels).len()) == spec_encode_name(labels),
    ensures
        spec_read_labels(buf, pos, visited) == Ok::<Seq<Seq<u8>>, DnsError>(labels),
        spec_name_span(buf, pos) == spec_encode_name(labels).len(),
    decreases labels.len(),
{
    let enc = spec_encode_name(labels);
    lemma_encode_name_len(labels);
    assert forall|i: int| 0 <= i < enc.len() implies buf[pos + i] == enc[i] by {
        assert(buf.subrange(pos, pos + enc.len())[i] == buf[pos + i]);
    }
    if labels.len() == 0 {
        assert(spec_encode_labels(labels) =~= Seq::<u8>::empty());
        assert(enc[0] == 0u8);
        assert(buf[pos + 0] == 0u8);
        assert(labels =~= Seq::<Seq<u8>>::empty());
    } else {
        let first = labels[0];
        let rest = labels.drop_first();
        let n = first.len() as int;
        assert(1 <= n <= 63);
        let tail = spec_encode_name(rest);
        lemma_encode_name_len(rest);
        assert(enc =~= seq![n as u8] + first + tail);
        assert(enc[0] == n as u8);
        assert(buf[pos + 0] == n as u8);
        let next = pos + 1 + n;
        assert(buf.subrange(pos + 1, next) =~= first) by {
            assert forall|i: int| 0 <= i < n implies buf[pos + 1 + i] == first[i] by {
                assert(buf[pos + (1 + i)] == enc[1 + i]);
            }
        }
        assert(buf.subrange(next, next + tail.len()) =~= tail) by {
            assert forall|i: int| 0 <= i < tail.len() implies buf[next + i] == tail[i] by {
                assert(buf[pos + (1 + n + i)] == enc[1 + n + i]);
            }
        }
        assert(valid_labels(rest)) by {
            assert forall|i: int| 0 <= i < rest.len() implies 1 <= (#[trigger] rest[i]).len()
                <= 63 by {
                assert(rest[i] == labels[i + 1]);
            }
        }
        lemma_read_encoded_labels(buf, next, rest, visited);
        assert(seq![first] + rest =~= labels);
    }
}

/// Decoding the encoding of a valid name gives the name back and consumes
/// the whole encoding.
pub proof fn lemma_name_roundtrip(labels: Seq<Seq<u8>>)
    requires
        valid_labels(labels),
    ensures
        spec_decode_name(spec_encode_name(labels), 0) == Ok::<(Seq<Seq<u8>>, int), DnsError>(
            (labels, spec_encode_name(labels).len() as int),
        ),
{
    let enc = spec_encode_name(labels);
    assert(enc.subrange(0, 0 + enc.len() as int) =~= enc);
    lemma_read_encoded_labels(enc, 0, labels, seq![0usize]);
}

/// A name that begins with a pointer to itself, or to anything at or behind
/// the pointer, does not decode: the result is `CompressionLoop`.
pub proof fn lemma_pointer_not_backwards_fails(buf: Seq<u8>, start: usize)
    requires
        start + 1 < buf.len(),
        buf[start as int] >= 192,
        spec_pointer_target(buf[start as int], buf[start + 1]) >= start,
    ensures
        spec_decode_name(buf, start) == Err::<(Seq<Seq<u8>>, int), DnsError>(
            DnsError::CompressionLoop,
        ),
{
}

/// A name whose first label is declared longer than the bytes that remain
/// does not decode: the result is `TruncatedBuffer`.
pub proof fn lemma_label_past_end_fails(buf: Seq<u8>, start: usize)
    requires
        start < buf.len(),
        0 < buf[start as int] <= 63,
        start + 1 + buf[start as int] > buf.len(),
    ensures
        spec_decode_name(buf, start) == Err::<(Seq<Seq<u8>>, int), DnsError>(
            DnsError::TruncatedBuffer,
        ),
{
}

} // verus!
