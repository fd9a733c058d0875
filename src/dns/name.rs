use vstd::prelude::*;
use vstd::utf8::*;
use crate::dns::buffer::{PacketBufferError, BUFFER_SIZE};

verus! {

/// The byte that separates labels in the text form of a name.
pub const DOT: u8 = 0x2E;

/// The longest label that a name may hold, in bytes.
pub const MAX_LABEL_LEN: usize = 63;

/// The labels of a name's bytes, split at each dot: an empty text gives one
/// empty label, and two dots in a row give an empty label between them.
pub open spec fn split_labels(b: Seq<u8>) -> Seq<Seq<u8>>
    decreases b.len(),
{
    if b.len() == 0 {
        seq![Seq::<u8>::empty()]
    } else {
        let ls = split_labels(b.drop_last());
        if b.last() == DOT {
            ls.push(Seq::<u8>::empty())
        } else {
            ls.update(ls.len() - 1, ls.last().push(b.last()))
        }
    }
}

/// Labels joined with dots.
pub open spec fn join_labels(ls: Seq<Seq<u8>>) -> Seq<u8>
    decreases ls.len(),
{
    if ls.len() == 0 {
        Seq::<u8>::empty()
    } else if ls.len() == 1 {
        ls[0]
    } else {
        join_labels(ls.drop_last()) + seq![DOT] + ls.last()
    }
}

/// Each label as a length octet followed by its bytes.
pub open spec fn labels_wire(ls: Seq<Seq<u8>>) -> Seq<u8>
    decreases ls.len(),
{
    if ls.len() == 0 {
        Seq::<u8>::empty()
    } else {
        labels_wire(ls.drop_last()) + seq![ls.last().len() as u8] + ls.last()
    }
}

/// Whether no label is longer than the limit.
pub open spec fn labels_fit(ls: Seq<Seq<u8>>) -> bool {
    forall|i: int| 0 <= i < ls.len() ==> #[trigger] ls[i].len() <= MAX_LABEL_LEN
}

/// The uncompressed wire form of a name given by its bytes: its labels, then a
/// zero octet.
pub open spec fn name_wire(b: Seq<u8>) -> Seq<u8> {
    labels_wire(split_labels(b)) + seq![0u8]
}

/// Whether a name can be written: no label is longer than the limit.
pub open spec fn writable_name(b: Seq<u8>) -> bool {
    labels_fit(split_labels(b))
}

/// Whether a name survives a write and a read unchanged: every label holds
/// between one and 63 bytes.
pub open spec fn well_formed_name(name: Seq<char>) -> bool {
    let ls = split_labels(encode_utf8(name));
    forall|i: int| 0 <= i < ls.len() ==> 1 <= #[trigger] ls[i].len() <= MAX_LABEL_LEN
}

/// A name never splits into zero labels.
pub proof fn lemma_split_nonempty(b: Seq<u8>)
    ensures
        split_labels(b).len() >= 1,
    decreases b.len(),
{
    if b.len() > 0 {
        lemma_split_nonempty(b.drop_last());
    }
}

/// Splitting a name at its dots and joining the labels again gives it back.
pub proof fn lemma_join_split(b: Seq<u8>)
    ensures
        join_labels(split_labels(b)) == b,
    decreases b.len(),
{
    if b.len() > 0 {
        let ls = split_labels(b.drop_last());
        lemma_join_split(b.drop_last());
        lemma_split_nonempty(b.drop_last());
        if b.last() == DOT {
            assert(ls.push(Seq::<u8>::empty()).drop_last() =~= ls);
            assert(b =~= b.drop_last() + seq![DOT] + Seq::<u8>::empty());
        } else {
            let ls2 = ls.update(ls.len() - 1, ls.last().push(b.last()));
            assert(ls2.drop_last() =~= ls.drop_last());
            assert(b =~= b.drop_last().push(b.last()));
            if ls.len() == 1 {
                assert(b =~= ls[0].push(b.last()));
            } else {
                assert(join_labels(ls) == join_labels(ls.drop_last()) + seq![DOT] + ls.last());
                assert(b =~= join_labels(ls.drop_last()) + seq![DOT] + ls.last().push(b.last()));
            }
        }
    }
}

/// The byte views of a list of labels.
pub open spec fn label_views(v: Seq<Vec<u8>>) -> Seq<Seq<u8>> {
    v.map_values(|l: Vec<u8>| l@)
}

/// The most compression pointers that one name may follow.
pub const MAX_JUMPS: usize = 5;

/// What reading a name at `pos` gives: its labels and where the cursor goes
/// after it, or the error that stops the read. `jumps` counts the pointers
/// followed so far; `cursor` is where the cursor goes once a pointer has been
/// followed (just past the first pointer).
pub open spec fn read_labels(buf: Seq<u8>, pos: int, jumps: int, cursor: Option<int>) -> Result<
    (Seq<Seq<u8>>, int),
    PacketBufferError,
>
    decreases MAX_JUMPS + 1 - jumps, buf.len() - pos,
{
    if jumps > MAX_JUMPS {
        Err(PacketBufferError::JumpLimitExceeded)
    } else if pos < 0 || pos >= buf.len() {
        Err(PacketBufferError::EndOfBuffer)
    } else {
        let len = buf[pos];
        if len >= 0xC0 {
            if pos + 1 >= buf.len() {
                Err(PacketBufferError::EndOfBuffer)
            } else {
                let target = (len - 0xC0) * 256 + buf[pos + 1];
                let next = if cursor is None {
                    Some(pos + 2)
                } else {
                    cursor
                };
                read_labels(buf, target, jumps + 1, next)
            }
        } else if len == 0 {
            match cursor {
                Some(c) => Ok((Seq::<Seq<u8>>::empty(), c)),
                None => Ok((Seq::<Seq<u8>>::empty(), pos + 1)),
            }
        } else if pos + 1 + len > buf.len() {
            Err(PacketBufferError::EndOfBuffer)
        } else {
            let label = buf.subrange(pos + 1, pos + 1 + len);
            if !valid_utf8(label) {
                Err(PacketBufferError::Utf8ConversionError)
            } else {
                prepend_label(label, read_labels(buf, pos + 1 + len, jumps, cursor))
            }
        }
    }
}

/// `r` with `label` put in front of its labels.
pub open spec fn prepend_label(
    label: Seq<u8>,
    r: Result<(Seq<Seq<u8>>, int), PacketBufferError>,
) -> Result<(Seq<Seq<u8>>, int), PacketBufferError> {
    prepend_labels(seq![label], r)
}

/// `r` with `ls` put in front of its labels.
pub open spec fn prepend_labels(
    ls: Seq<Seq<u8>>,
    r: Result<(Seq<Seq<u8>>, int), PacketBufferError>,
) -> Result<(Seq<Seq<u8>>, int), PacketBufferError> {
    match r {
        Ok((rest, c)) => Ok((ls + rest, c)),
        Err(e) => Err(e),
    }
}

/// What reading a name at `pos` of `buf` gives: the text of its labels joined
/// with dots and the cursor after it, or an error.
pub open spec fn read_name(buf: Seq<u8>, pos: int) -> Result<(Seq<char>, int), PacketBufferError> {
    match read_labels(buf, pos, 0, None) {
        Ok((ls, c)) => Ok((decode_utf8(join_labels(ls)), c)),
        Err(e) => Err(e),
    }
}

/// Relies on `String::from_utf8`: it accepts exactly the valid UTF-8 byte
/// sequences, and then holds the characters that they encode.
#[verifier::external_body]
pub(crate) fn utf8_text(b: &[u8]) -> (r: Option<String>)
    ensures
        r is Some <==> valid_utf8(b@),
        r is Some ==> r->0@ == decode_utf8(b@),
{
    String::from_utf8(b.to_vec()).ok()
}

pub(crate) fn append_bytes(out: &mut Vec<u8>, b: &[u8])
    ensures
        final(out)@ == old(out)@ + b@,
{
    let mut i: usize = 0;
    while i < b.len()
        invariant
            0 <= i <= b@.len(),
            out@ == old(out)@ + b@.subrange(0, i as int),
        decreases b@.len() - i,
    {
        out.push(b[i]);
        i = i + 1;
        assert(out@ =~= old(out)@ + b@.subrange(0, i as int));
    }
    assert(b@.subrange(0, b@.len() as int) =~= b@);
}

/// The labels of `b`, split at each dot.
pub fn split_name(b: &[u8]) -> (r: Vec<Vec<u8>>)
    ensures
        label_views(r@) == split_labels(b@),
{
    let mut done: Vec<Vec<u8>> = Vec::new();
    let mut cur: Vec<u8> = Vec::new();
    let mut i: usize = 0;
    assert(b@.subrange(0, 0) =~= Seq::<u8>::empty());
    assert(label_views(done@).push(cur@) =~= split_labels(b@.subrange(0, 0)));
    while i < b.len()
        invariant
            0 <= i <= b@.len(),
            label_views(done@).push(cur@) == split_labels(b@.subrange(0, i as int)),
        decreases b@.len() - i,
    {
        let ghost prev = b@.subrange(0, i as int);
        let ghost next = b@.subrange(0, i + 1);
        assert(next.drop_last() =~= prev);
        let c = b[i];
        if c == DOT {
            let finished = cur;
            done.push(finished);
            cur = Vec::new();
            assert(label_views(done@).push(cur@) =~= split_labels(prev).push(Seq::<u8>::empty()));
        } else {
            cur.push(c);
            assert(label_views(done@).push(cur@) =~= split_labels(prev).update(
                split_labels(prev).len() - 1,
                split_labels(prev).last().push(c),
            ));
        }
        i = i + 1;
    }
    assert(b@.subrange(0, b@.len() as int) =~= b@);
    done.push(cur);
    assert(label_views(done@) =~= split_labels(b@));
    done
}

/// The uncompressed wire form of the name whose bytes are `b`, or an error if
/// one of its labels is longer than 63 bytes.
pub fn encode_name(b: &[u8]) -> (r: Result<Vec<u8>, PacketBufferError>)
    ensures
        writable_name(b@) ==> r is Ok && r->Ok_0@ == name_wire(b@),
        !writable_name(b@) ==> r == Err::<Vec<u8>, _>(
            PacketBufferError::InvalidLabelLength,
        ),
{
    let labels = split_name(b);
    let ghost ls = split_labels(b@);
    let mut i: usize = 0;
    while i < labels.len()
        invariant
            0 <= i <= labels@.len(),
            label_views(labels@) == ls,
            ls == split_labels(b@),
            forall|k: int| 0 <= k < i ==> #[trigger] ls[k].len() <= MAX_LABEL_LEN,
        decreases labels@.len() - i,
    {
        assert(labels@[i as int]@ == ls[i as int]);
        if labels[i].len() > MAX_LABEL_LEN {
            assert(ls[i as int].len() > MAX_LABEL_LEN);
            assert(!labels_fit(ls));
            assert(!writable_name(b@));
            return Err(PacketBufferError::InvalidLabelLength);
        }
        i = i + 1;
    }
    let mut out: Vec<u8> = Vec::new();
    let mut j: usize = 0;
    assert(ls.subrange(0, 0) =~= Seq::<Seq<u8>>::empty());
    while j < labels.len()
        invariant
            0 <= j <= labels@.len(),
            label_views(labels@) == ls,
            ls == split_labels(b@),
            labels_fit(ls),
            out@ == labels_wire(ls.subrange(0, j as int)),
        decreases labels@.len() - j,
    {
        let label = &labels[j];
        assert(label@ == ls[j as int]);
        assert(ls.subrange(0, j + 1).drop_last() =~= ls.subrange(0, j as int));
        out.push(label.len() as u8);
        append_bytes(&mut out, label.as_slice());
        j = j + 1;
    }
    assert(ls.subrange(0, ls.len() as int) =~= ls);
    out.push(0u8);
    Ok(out)
}


/// Whether `b` holds no dot.
pub open spec fn dot_free(b: Seq<u8>) -> bool {
    forall|i: int| 0 <= i < b.len() ==> #[trigger] b[i] != DOT
}

/// The labels of a wire form read from the front: a length octet, the label,
/// then the rest.
pub proof fn lemma_labels_wire_front(ls: Seq<Seq<u8>>)
    requires
        ls.len() > 0,
    ensures
        labels_wire(ls) == seq![ls[0].len() as u8] + ls[0] + labels_wire(ls.drop_first()),
    decreases ls.len(),
{
    if ls.len() == 1 {
        assert(ls.drop_last() =~= Seq::<Seq<u8>>::empty());
        assert(ls.drop_first() =~= Seq::<Seq<u8>>::empty());
        assert(labels_wire(ls) =~= seq![ls[0].len() as u8] + ls[0] + labels_wire(ls.drop_first()));
    } else {
        lemma_labels_wire_front(ls.drop_last());
        assert(ls.drop_last().drop_first() =~= ls.drop_first().drop_last());
        assert(ls.drop_last()[0] == ls[0]);
        assert(ls.drop_first().last() == ls.last());
        assert(labels_wire(ls) =~= seq![ls[0].len() as u8] + ls[0] + labels_wire(ls.drop_first()));
    }
}

/// A text without dots is one label.
pub proof fn lemma_split_dot_free(s: Seq<u8>)
    requires
        dot_free(s),
    ensures
        split_labels(s) == seq![s],
    decreases s.len(),
{
    if s.len() == 0 {
        assert(s =~= Seq::<u8>::empty());
    } else {
        lemma_split_dot_free(s.drop_last());
        assert(s.last() != DOT);
        assert(s.drop_last().push(s.last()) =~= s);
        assert(seq![s.drop_last()].update(0, s.drop_last().push(s.last())) =~= seq![s]);
    }
}

/// Splitting a text after its last dot adds the dot-free tail as one label.
pub proof fn lemma_split_last_dot(p: Seq<u8>, s: Seq<u8>)
    requires
        dot_free(s),
    ensures
        split_labels(p + seq![DOT] + s) == split_labels(p).push(s),
    decreases s.len(),
{
    let t = p + seq![DOT] + s;
    if s.len() == 0 {
        assert(t.drop_last() =~= p);
        assert(s =~= Seq::<u8>::empty());
    } else {
        lemma_split_last_dot(p, s.drop_last());
        assert(t.drop_last() =~= p + seq![DOT] + s.drop_last());
        assert(t.last() == s.last());
        assert(s.last() != DOT);
        let ls = split_labels(p).push(s.drop_last());
        assert(s.drop_last().push(s.last()) =~= s);
        assert(ls.update(ls.len() - 1, ls.last().push(s.last())) =~= split_labels(p).push(s));
    }
}

/// Where the last dot of `b` stands, or -1 where it has none.
pub open spec fn last_dot(b: Seq<u8>) -> int
    decreases b.len(),
{
    if b.len() == 0 {
        -1
    } else if b.last() == DOT {
        b.len() - 1
    } else {
        last_dot(b.drop_last())
    }
}

/// The last dot is a dot with no dot after it.
pub proof fn lemma_last_dot(b: Seq<u8>)
    ensures
        last_dot(b) == -1 ==> dot_free(b),
        last_dot(b) != -1 ==> 0 <= last_dot(b) < b.len() && b[last_dot(b)] == DOT && dot_free(
            b.subrange(last_dot(b) + 1, b.len() as int),
        ),
    decreases b.len(),
{
    if b.len() > 0 {
        lemma_last_dot(b.drop_last());
        if b.last() != DOT {
            let k = last_dot(b.drop_last());
            if k != -1 {
                assert forall|i: int| 0 <= i < b.subrange(k + 1, b.len() as int).len() implies #[trigger] b.subrange(
                    k + 1,
                    b.len() as int,
                )[i] != DOT by {
                    if k + 1 + i < b.len() - 1 {
                        assert(b.subrange(k + 1, b.len() as int)[i] == b.drop_last().subrange(
                            k + 1,
                            b.len() - 1,
                        )[i]);
                    }
                }
            } else {
                assert forall|i: int| 0 <= i < b.len() implies #[trigger] b[i] != DOT by {
                    if i < b.len() - 1 {
                        assert(b[i] == b.drop_last()[i]);
                    }
                }
            }
        }
    }
}

/// The labels of valid UTF-8 text are valid UTF-8: a dot is a character of
/// its own, so every cut next to one falls between characters.
pub proof fn lemma_split_labels_valid(b: Seq<u8>)
    requires
        valid_utf8(b),
    ensures
        forall|i: int| 0 <= i < split_labels(b).len() ==> valid_utf8(#[trigger] split_labels(b)[i]),
    decreases b.len(),
{
    lemma_last_dot(b);
    let k = last_dot(b);
    if k == -1 {
        lemma_split_dot_free(b);
    } else {
        let p = b.subrange(0, k);
        let t = b.subrange(k, b.len() as int);
        let s = b.subrange(k + 1, b.len() as int);
        assert(b =~= p + seq![DOT] + s);
        assert(!is_continuation_byte(b[k]));
        is_char_boundary_iff_not_is_continuation_byte(b, k);
        valid_utf8_split(b, k);
        assert(valid_utf8(t));
        assert(is_leading_byte_width_1(t[0]));
        assert(pop_first_scalar(t) =~= s);
        assert(valid_utf8(s));
        lemma_split_labels_valid(p);
        lemma_split_last_dot(p, s);
    }
}

/// Whether every label holds between one and 63 bytes of valid UTF-8.
pub open spec fn readable_labels(ls: Seq<Seq<u8>>) -> bool {
    forall|i: int|
        0 <= i < ls.len() ==> 1 <= (#[trigger] ls[i]).len() <= MAX_LABEL_LEN && valid_utf8(ls[i])
}

/// Labels written out in full, ending in a zero octet, read back as the same
/// labels; the cursor then goes past the zero octet, or to where an earlier
/// pointer sent it.
pub proof fn lemma_read_labels_wire(
    buf: Seq<u8>,
    pos: int,
    ls: Seq<Seq<u8>>,
    jumps: int,
    cursor: Option<int>,
)
    requires
        buf.len() == BUFFER_SIZE,
        0 <= pos,
        0 <= jumps <= MAX_JUMPS,
        readable_labels(ls),
        pos + labels_wire(ls).len() + 1 <= BUFFER_SIZE,
        buf.subrange(pos, pos + labels_wire(ls).len() + 1) == labels_wire(ls) + seq![0u8],
    ensures
        read_labels(buf, pos, jumps, cursor) == Ok::<(Seq<Seq<u8>>, int), PacketBufferError>(
            (
                ls,
                match cursor {
                    Some(c) => c,
                    None => pos + labels_wire(ls).len() + 1,
                },
            ),
        ),
    decreases ls.len(),
{
    let w = labels_wire(ls) + seq![0u8];
    assert(buf[pos] == w[0]);
    if ls.len() == 0 {
        assert(buf[pos] == 0);
        assert(ls =~= Seq::<Seq<u8>>::empty());
    } else {
        lemma_labels_wire_front(ls);
        let l = ls[0];
        let rest = ls.drop_first();
        let n = l.len() as int;
        assert(buf[pos] == n);
        assert(buf.subrange(pos + 1, pos + 1 + n) =~= l) by {
            assert forall|i: int| 0 <= i < n implies buf.subrange(pos + 1, pos + 1 + n)[i] == l[i] by {
                assert(buf[pos + 1 + i] == w[1 + i]);
            }
        }
        assert(buf.subrange(pos + 1 + n, pos + 1 + n + labels_wire(rest).len() + 1) =~= labels_wire(
            rest,
        ) + seq![0u8]) by {
            assert forall|i: int| 0 <= i < labels_wire(rest).len() + 1 implies buf.subrange(
                pos + 1 + n,
                pos + 1 + n + labels_wire(rest).len() + 1,
            )[i] == (labels_wire(rest) + seq![0u8])[i] by {
                assert(buf[pos + 1 + n + i] == w[1 + n + i]);
            }
        }
        assert(readable_labels(rest)) by {
            assert forall|i: int| 0 <= i < rest.len() implies 1 <= (#[trigger] rest[i]).len()
                <= MAX_LABEL_LEN && valid_utf8(rest[i]) by {
                assert(rest[i] == ls[i + 1]);
            }
        }
        lemma_read_labels_wire(buf, pos + 1 + n, rest, jumps, cursor);
        assert(seq![l] + rest =~= ls);
        assert(labels_wire(ls).len() == 1 + n + labels_wire(rest).len());
        assert(buf[pos] < 0xC0);
        assert(buf[pos] != 0);
        assert(valid_utf8(buf.subrange(pos + 1, pos + 1 + buf[pos])));
        assert(read_labels(buf, pos, jumps, cursor) == prepend_label(
            buf.subrange(pos + 1, pos + 1 + buf[pos]),
            read_labels(buf, pos + 1 + buf[pos], jumps, cursor),
        ));
    }
}

/// A name whose labels each hold one to 63 bytes is read back, from where it
/// was written, as the same text, with the cursor just past it.
pub proof fn lemma_name_round_trip(buf: Seq<u8>, pos: int, name: Seq<char>)
    requires
        buf.len() == BUFFER_SIZE,
        0 <= pos,
        well_formed_name(name),
        pos + name_wire(encode_utf8(name)).len() <= BUFFER_SIZE,
        buf.subrange(pos, pos + name_wire(encode_utf8(name)).len()) == name_wire(
            encode_utf8(name),
        ),
    ensures
        writable_name(encode_utf8(name)),
        read_name(buf, pos) == Ok::<(Seq<char>, int), PacketBufferError>(
            (name, pos + name_wire(encode_utf8(name)).len()),
        ),
{
    let b = encode_utf8(name);
    let ls = split_labels(b);
    encode_utf8_valid_utf8(name);
    lemma_split_labels_valid(b);
    lemma_join_split(b);
    encode_utf8_decode_utf8(name);
    lemma_read_labels_wire(buf, pos, ls, 0, None);
}

/// A compression pointer to offset 12, where a name is written out in full,
/// reads as the same name as offset 12 itself; the cursor goes just past the
/// pointer.
pub proof fn lemma_pointer_to_offset_12(buf: Seq<u8>, ls: Seq<Seq<u8>>, q: int)
    requires
        buf.len() == BUFFER_SIZE,
        readable_labels(ls),
        12 + labels_wire(ls).len() + 1 <= BUFFER_SIZE,
        buf.subrange(12, 12 + labels_wire(ls).len() as int + 1) == labels_wire(ls) + seq![0u8],
        0 <= q,
        q + 2 <= BUFFER_SIZE,
        buf[q] == 0xC0,
        buf[q + 1] == 0x0C,
    ensures
        read_labels(buf, 12, 0, None) == Ok::<(Seq<Seq<u8>>, int), PacketBufferError>(
            (ls, 12 + labels_wire(ls).len() as int + 1),
        ),
        read_labels(buf, q, 0, None) == Ok::<(Seq<Seq<u8>>, int), PacketBufferError>(
            (ls, q + 2),
        ),
        read_name(buf, q) is Ok && read_name(buf, 12) is Ok && read_name(buf, q)->Ok_0.0
            == read_name(buf, 12)->Ok_0.0,
{
    lemma_read_labels_wire(buf, 12, ls, 0, None);
    lemma_read_labels_wire(buf, 12, ls, 1, Some(q + 2));
}

/// Whether `buf` holds, at each position of `ps` but the last, a compression
/// pointer to the next position of `ps`.
pub open spec fn pointer_chain(buf: Seq<u8>, ps: Seq<int>) -> bool {
    forall|i: int|
        0 <= i < ps.len() - 1 ==> {
            &&& 0 <= #[trigger] ps[i]
            &&& ps[i] + 1 < buf.len()
            &&& buf[ps[i]] >= 0xC0
            &&& (buf[ps[i]] - 0xC0) * 256 + buf[ps[i] + 1] == ps[i + 1]
        }
}

/// Whether `buf` holds the labels `ls` written out in full, with their zero
/// octet, at `pos`.
pub open spec fn labels_at(buf: Seq<u8>, pos: int, ls: Seq<Seq<u8>>) -> bool {
    &&& readable_labels(ls)
    &&& 0 <= pos
    &&& pos + labels_wire(ls).len() + 1 <= buf.len()
    &&& buf.subrange(pos, pos + labels_wire(ls).len() + 1) == labels_wire(ls) + seq![0u8]
}

proof fn lemma_chain_from(
    buf: Seq<u8>,
    ps: Seq<int>,
    ls: Seq<Seq<u8>>,
    i: int,
    jumps: int,
    c: int,
)
    requires
        buf.len() == BUFFER_SIZE,
        pointer_chain(buf, ps),
        0 <= i < ps.len(),
        0 <= jumps,
        labels_at(buf, ps.last(), ls),
    ensures
        read_labels(buf, ps[i], jumps, Some(c)) == (if jumps + (ps.len() - 1 - i) <= MAX_JUMPS {
            Ok::<(Seq<Seq<u8>>, int), PacketBufferError>((ls, c))
        } else {
            Err::<(Seq<Seq<u8>>, int), PacketBufferError>(PacketBufferError::JumpLimitExceeded)
        }),
    decreases ps.len() - i,
{
    if jumps <= MAX_JUMPS {
        if i == ps.len() - 1 {
            lemma_read_labels_wire(buf, ps[i], ls, jumps, Some(c));
        } else {
            assert(0 <= ps[i]);
            lemma_chain_from(buf, ps, ls, i + 1, jumps + 1, c);
        }
    }
}

/// A name reached through a chain of compression pointers reads as the name
/// at the chain's end while the chain has at most five pointers, with the
/// cursor just past the first pointer; a longer chain fails with
/// `JumpLimitExceeded`.
pub proof fn lemma_jump_bound(buf: Seq<u8>, ps: Seq<int>, ls: Seq<Seq<u8>>)
    requires
        buf.len() == BUFFER_SIZE,
        ps.len() >= 2,
        pointer_chain(buf, ps),
        labels_at(buf, ps.last(), ls),
    ensures
        ps.len() - 1 <= MAX_JUMPS ==> read_labels(buf, ps[0], 0, None) == Ok::<
            (Seq<Seq<u8>>, int),
            PacketBufferError,
        >((ls, ps[0] + 2)),
        ps.len() - 1 > MAX_JUMPS ==> read_labels(buf, ps[0], 0, None) == Err::<
            (Seq<Seq<u8>>, int),
            PacketBufferError,
        >(PacketBufferError::JumpLimitExceeded),
        ps.len() - 1 > MAX_JUMPS ==> read_name(buf, ps[0]) == Err::<
            (Seq<char>, int),
            PacketBufferError,
        >(PacketBufferError::JumpLimitExceeded),
{
    assert(0 <= ps[0]);
    lemma_chain_from(buf, ps, ls, 1, 1, ps[0] + 2);
}

} // verus!
