//! The image header: a type octet, a flags octet, then the width and the
//! height as variable-length integers.
//!
//! A variable-length integer is a run of octets. Each octet carries seven
//! bits of the value, most significant group first; its high bit says
//! whether another octet follows.
use crate::error::WbmpError;
use vstd::prelude::*;

verus! {

/// High bit of an octet: more octets of the same integer follow.
pub const CONTINUATION_MASK: u8 = 0x80;

/// Low seven bits of an octet: the group of the value that it carries.
pub const DATA_MASK: u8 = 0x7F;

/// Whether `octet` announces a further octet of the same integer.
pub open spec fn is_continued(octet: u8) -> bool {
    octet >= 128
}

/// The seven-bit group that `octet` carries.
pub open spec fn payload(octet: u8) -> nat {
    (octet % 128) as nat
}

/// Whether every octet of `s` from `from` up to `to` is continued.
pub open spec fn all_continued(s: Seq<u8>, from: int, to: int) -> bool {
    forall|i: int| from <= i < to ==> is_continued(#[trigger] s[i])
}

/// The position just past the variable-length integer that starts at `from`:
/// one past the first octet at or after `from` that is not continued.
/// `None` if `s` ends before such an octet.
pub open spec fn varint_end(s: Seq<u8>, from: int) -> Option<int>
    decreases s.len() - from,
{
    if from < 0 || from >= s.len() {
        None
    } else if !is_continued(s[from]) {
        Some(from + 1)
    } else {
        varint_end(s, from + 1)
    }
}

/// The number written by `groups` in base 128, most significant group first.
pub open spec fn varint_value(groups: Seq<u8>) -> nat
    decreases groups.len(),
{
    if groups.len() == 0 {
        0
    } else {
        varint_value(groups.drop_last()) * 128 + payload(groups.last())
    }
}

/// The number written by `groups` as a 32-bit accumulator holds it: groups
/// shifted out at the top are lost.
pub open spec fn varint_u32(groups: Seq<u8>) -> u32 {
    (varint_value(groups) % 0x1_0000_0000) as u32
}

/// The groups of `v` from the most significant one down, each marked as
/// continued. Empty for zero.
pub open spec fn continued_groups(v: nat) -> Seq<u8>
    decreases v,
{
    if v == 0 {
        Seq::empty()
    } else {
        continued_groups(v / 128).push((128 + v % 128) as u8)
    }
}

/// The octets that encode `v`: every group but the last is marked as
/// continued. Zero is a single zero octet.
pub open spec fn varint_octets(v: nat) -> Seq<u8> {
    continued_groups(v / 128).push((v % 128) as u8)
}

/// The octets of the header of an image `width` by `height`.
pub open spec fn header_octets(width: u32, height: u32) -> Seq<u8> {
    seq![0u8, 0u8] + varint_octets(width as nat) + varint_octets(height as nat)
}

/// What a run of octets is, read as a header.
pub enum HeaderParse {
    /// A complete header, held in the first `consumed` octets.
    Parsed { width: u32, height: u32, consumed: nat },
    /// The first octet is not the supported image type.
    UnsupportedType(u8),
    /// The second octet announces extension headers.
    UnsupportedHeaders,
    /// The octets end before the header does, and no octet among them is
    /// rejected.
    Truncated,
}

/// Reads `s` as a header. A rejected octet is reported as soon as it is
/// reached, even if `s` ends right after it.
pub open spec fn parse_header(s: Seq<u8>) -> HeaderParse {
    if s.len() < 1 {
        HeaderParse::Truncated
    } else if s[0] != 0 {
        HeaderParse::UnsupportedType(s[0])
    } else if s.len() < 2 {
        HeaderParse::Truncated
    } else if is_continued(s[1]) {
        HeaderParse::UnsupportedHeaders
    } else {
        match varint_end(s, 2) {
            None => HeaderParse::Truncated,
            Some(width_end) => match varint_end(s, width_end) {
                None => HeaderParse::Truncated,
                Some(height_end) => HeaderParse::Parsed {
                    width: varint_u32(s.subrange(2, width_end)),
                    height: varint_u32(s.subrange(width_end, height_end)),
                    consumed: height_end as nat,
                },
            },
        }
    }
}

/// An integer whose octets are all continued so far has not ended.
pub proof fn lemma_varint_end_none(s: Seq<u8>, from: int)
    requires
        0 <= from <= s.len(),
        all_continued(s, from, s.len() as int),
    ensures
        varint_end(s, from) is None,
    decreases s.len() - from,
{
    if from < s.len() {
        assert(is_continued(s[from]));
        lemma_varint_end_none(s, from + 1);
    }
}

/// An integer ends just past its first octet that is not continued.
pub proof fn lemma_varint_end_some(s: Seq<u8>, from: int, last: int)
    requires
        0 <= from <= last < s.len(),
        all_continued(s, from, last),
        !is_continued(s[last]),
    ensures
        varint_end(s, from) == Some(last + 1),
    decreases last - from,
{
    if from < last {
        assert(is_continued(s[from]));
        lemma_varint_end_some(s, from + 1, last);
    }
}

/// Where an integer ends, it ends within the octets, after at least one
/// octet, on an octet that is not continued and behind continued ones only.
pub proof fn lemma_varint_end_shape(s: Seq<u8>, from: int)
    requires
        varint_end(s, from) is Some,
    ensures
        0 <= from < varint_end(s, from).unwrap() <= s.len(),
        all_continued(s, from, varint_end(s, from).unwrap() - 1),
        !is_continued(s[varint_end(s, from).unwrap() - 1]),
    decreases s.len() - from,
{
    if is_continued(s[from]) {
        lemma_varint_end_shape(s, from + 1);
    }
}

/// One more group shifts the 32-bit accumulator left by seven bits and puts
/// the group into the bits that this frees.
pub proof fn lemma_varint_u32_push(groups: Seq<u8>, octet: u8)
    ensures
        varint_u32(groups.push(octet)) == (varint_u32(groups) << 7u32) | ((octet & DATA_MASK) as u32),
{
    let acc = varint_u32(groups);
    let low = (octet & DATA_MASK) as u32;
    let v = varint_value(groups);
    assert(groups.push(octet).drop_last() =~= groups);
    assert(low == octet % 128) by (bit_vector)
        requires
            low == (octet & 0x7Fu8) as u32,
    ;
    assert(((acc << 7u32) | low) == (acc as int * 128 + low as int) % 0x1_0000_0000) by (bit_vector)
        requires
            low < 128,
    ;
    assert((v * 128 + low) % 0x1_0000_0000 == ((v % 0x1_0000_0000) * 128 + low) % 0x1_0000_0000) by {
        vstd::arithmetic::div_mod::lemma_mul_mod_noop_left(v as int, 128, 0x1_0000_0000);
        vstd::arithmetic::div_mod::lemma_add_mod_noop((v * 128) as int, low as int, 0x1_0000_0000);
        vstd::arithmetic::div_mod::lemma_add_mod_noop(
            ((v % 0x1_0000_0000) * 128) as int,
            low as int,
            0x1_0000_0000,
        );
    }
}

/// The continued groups of a number write that number, and every one of
/// them is continued.
pub proof fn lemma_continued_groups(v: nat)
    ensures
        varint_value(continued_groups(v)) == v,
        all_continued(continued_groups(v), 0, continued_groups(v).len() as int),
    decreases v,
{
    if v > 0 {
        lemma_continued_groups(v / 128);
        let head = continued_groups(v / 128);
        let octet = (128 + v % 128) as u8;
        assert(head.push(octet).drop_last() =~= head);
        assert(payload(octet) == v % 128);
        assert forall|i: int| 0 <= i < head.push(octet).len() implies is_continued(
            #[trigger] head.push(octet)[i],
        ) by {
            if i < head.len() {
                assert(is_continued(head[i]));
            }
        }
    }
}

/// Decoding inverts encoding: the octets of `v` write `v`, and read from
/// their first octet, wherever they stand, they end at their last.
pub proof fn lemma_varint_round_trip(before: Seq<u8>, v: nat, after: Seq<u8>)
    ensures
        varint_value(varint_octets(v)) == v,
        varint_end(before + varint_octets(v) + after, before.len() as int) == Some(
            (before.len() + varint_octets(v).len()) as int,
        ),
        (before + varint_octets(v) + after).subrange(
            before.len() as int,
            (before.len() + varint_octets(v).len()) as int,
        ) == varint_octets(v),
{
    let head = continued_groups(v / 128);
    let octets = varint_octets(v);
    let s = before + octets + after;
    let from = before.len() as int;
    lemma_continued_groups(v / 128);
    assert(octets.drop_last() =~= head);
    assert(payload(octets.last()) == v % 128);
    assert forall|i: int| from <= i < from + head.len() implies is_continued(#[trigger] s[i]) by {
        assert(s[i] == head[i - from]);
    }
    assert(s[from + head.len()] == octets.last());
    lemma_varint_end_some(s, from, from + head.len());
    assert(s.subrange(from, from + octets.len()) =~= octets);
}

/// Header round trip: the header written for `width` and `height` reads
/// back as exactly these two, whatever follows it, and takes up exactly the
/// octets written.
pub proof fn lemma_header_round_trip(width: u32, height: u32, after: Seq<u8>)
    ensures
        parse_header(header_octets(width, height) + after) == (HeaderParse::Parsed {
            width,
            height,
            consumed: header_octets(width, height).len(),
        }),
{
    let fixed = seq![0u8, 0u8];
    let w = varint_octets(width as nat);
    let h = varint_octets(height as nat);
    let s = header_octets(width, height) + after;
    lemma_varint_round_trip(fixed, width as nat, h + after);
    lemma_varint_round_trip(fixed + w, height as nat, after);
    assert(s =~= fixed + w + (h + after));
    assert(s =~= (fixed + w) + h + after);
    assert(s[0] == 0 && s[1] == 0);
}

/// No read-ahead: once a run of octets holds a whole header, or a rejected
/// octet, the octets that follow change nothing.
pub proof fn lemma_parse_header_prefix(s: Seq<u8>, n: int)
    requires
        0 <= n <= s.len(),
        !(parse_header(s.take(n)) is Truncated),
    ensures
        parse_header(s) == parse_header(s.take(n)),
{
    let p = s.take(n);
    assert(p[0] == s[0]);
    if p[0] == 0 {
        assert(p[1] == s[1]);
        if !is_continued(p[1]) {
            let width_end = varint_end(p, 2).unwrap();
            let height_end = varint_end(p, width_end).unwrap();
            lemma_varint_end_shape(p, 2);
            lemma_varint_end_shape(p, width_end);
            assert forall|i: int| 2 <= i < width_end - 1 implies is_continued(#[trigger] s[i]) by {
                assert(s[i] == p[i]);
            }
            assert(s[width_end - 1] == p[width_end - 1]);
            lemma_varint_end_some(s, 2, width_end - 1);
            assert forall|i: int| width_end <= i < height_end - 1 implies is_continued(
                #[trigger] s[i],
            ) by {
                assert(s[i] == p[i]);
            }
            assert(s[height_end - 1] == p[height_end - 1]);
            lemma_varint_end_some(s, width_end, height_end - 1);
            assert(s.subrange(2, width_end) =~= p.subrange(2, width_end));
            assert(s.subrange(width_end, height_end) =~= p.subrange(width_end, height_end));
        }
    }
}

/// Rejection: a first octet other than zero is an unsupported type,
/// whatever follows; after a zero, a second octet with its high bit set
/// announces unsupported headers, whatever follows.
pub proof fn lemma_rejection(s: Seq<u8>)
    ensures
        s.len() >= 1 && s[0] != 0 ==> parse_header(s) == HeaderParse::UnsupportedType(s[0]),
        s.len() >= 2 && s[0] == 0 && is_continued(s[1]) ==> parse_header(s)
            == HeaderParse::UnsupportedHeaders,
{
}

enum Stage {
    TypeField,
    FixHeaderField,
    Width,
    Height,
}

/// A header read octet by octet. It holds the octets taken so far, none of
/// them rejected, short of a whole header.
pub struct HeaderParser {
    stage: Stage,
    width: u32,
    acc: u32,
    seen: Ghost<Seq<u8>>,
    width_end: Ghost<int>,
}

/// What one more octet made of a header that was not yet whole.
pub enum HeaderProgress {
    /// The header is still not whole: the parser takes the next octet.
    Pending(HeaderParser),
    /// The octet was the last of the header.
    Complete { width: u32, height: u32 },
}

impl HeaderParser {
    /// The octets taken so far.
    pub closed spec fn seen(&self) -> Seq<u8> {
        self.seen@
    }

    #[verifier::type_invariant]
    spec fn well_formed(&self) -> bool {
        let s = self.seen@;
        match self.stage {
            Stage::TypeField => s.len() == 0,
            Stage::FixHeaderField => s.len() == 1 && s[0] == 0,
            Stage::Width => {
                &&& s.len() >= 2
                &&& s[0] == 0
                &&& !is_continued(s[1])
                &&& all_continued(s, 2, s.len() as int)
                &&& self.acc == varint_u32(s.subrange(2, s.len() as int))
            },
            Stage::Height => {
                let m = self.width_end@;
                &&& 3 <= m <= s.len()
                &&& s[0] == 0
                &&& !is_continued(s[1])
                &&& all_continued(s, 2, m - 1)
                &&& !is_continued(s[m - 1])
                &&& self.width == varint_u32(s.subrange(2, m))
                &&& all_continued(s, m, s.len() as int)
                &&& self.acc == varint_u32(s.subrange(m, s.len() as int))
            },
        }
    }

    /// A parser that has taken no octet yet.
    pub fn new() -> (parser: HeaderParser)
        ensures
            parser.seen() == Seq::<u8>::empty(),
    {
        HeaderParser {
            stage: Stage::TypeField,
            width: 0,
            acc: 0,
            seen: Ghost(Seq::empty()),
            width_end: Ghost(0),
        }
    }

    /// Takes the next octet of the stream. The outcome is what the octets
    /// taken so far, this one included, are as a header: still short of
    /// one, exactly one, or rejected.
    pub fn push(self, octet: u8) -> (r: Result<HeaderProgress, WbmpError>)
        ensures
            parse_header(self.seen()) is Truncated,
            match parse_header(self.seen().push(octet)) {
                HeaderParse::Truncated => r matches Ok(HeaderProgress::Pending(next))
                    && next.seen() == self.seen().push(octet),
                HeaderParse::Parsed { width, height, consumed } => r == Ok::<
                    HeaderProgress,
                    WbmpError,
                >(HeaderProgress::Complete { width, height }) && consumed == self.seen().len()
                    + 1,
                HeaderParse::UnsupportedType(type_code) => r == Err::<HeaderProgress, WbmpError>(
                    WbmpError::UnsupportedType(type_code),
                ),
                HeaderParse::UnsupportedHeaders => r == Err::<HeaderProgress, WbmpError>(
                    WbmpError::UnsupportedHeaders,
                ),
            },
    {
        let ghost old_seen = self.seen@;
        let ghost now = old_seen.push(octet);
        let ghost len = old_seen.len() as int;
        proof {
            use_type_invariant(&self);
            assert(octet & CONTINUATION_MASK != 0 <==> is_continued(octet)) by (bit_vector);
        }
        match self.stage {
            Stage::TypeField => {
                if octet != 0 {
                    return Err(WbmpError::UnsupportedType(octet));
                }
                Ok(
                    HeaderProgress::Pending(
                        HeaderParser {
                            stage: Stage::FixHeaderField,
                            width: 0,
                            acc: 0,
                            seen: Ghost(now),
                            width_end: Ghost(0),
                        },
                    ),
                )
            },
            Stage::FixHeaderField => {
                if octet & CONTINUATION_MASK != 0 {
                    return Err(WbmpError::UnsupportedHeaders);
                }
                proof {
                    lemma_varint_end_none(now, 2);
                    assert(now.subrange(2, 2) =~= Seq::<u8>::empty());
                }
                Ok(
                    HeaderProgress::Pending(
                        HeaderParser {
                            stage: Stage::Width,
                            width: 0,
                            acc: 0,
                            seen: Ghost(now),
                            width_end: Ghost(0),
                        },
                    ),
                )
            },
            Stage::Width => {
                let acc = (self.acc << 7) | ((octet & DATA_MASK) as u32);
                proof {
                    lemma_varint_end_none(old_seen, 2);
                    lemma_varint_u32_push(old_seen.subrange(2, len), octet);
                    assert(now.subrange(2, len + 1) =~= old_seen.subrange(2, len).push(octet));
                }
                if octet & CONTINUATION_MASK != 0 {
                    proof {
                        lemma_varint_end_none(now, 2);
                    }
                    Ok(
                        HeaderProgress::Pending(
                            HeaderParser {
                                stage: Stage::Width,
                                width: 0,
                                acc,
                                seen: Ghost(now),
                                width_end: Ghost(0),
                            },
                        ),
                    )
                } else {
                    proof {
                        lemma_varint_end_some(now, 2, len);
                        assert(now.subrange(len + 1, len + 1) =~= Seq::<u8>::empty());
                    }
                    Ok(
                        HeaderProgress::Pending(
                            HeaderParser {
                                stage: Stage::Height,
                                width: acc,
                                acc: 0,
                                seen: Ghost(now),
                                width_end: Ghost(len + 1),
                            },
                        ),
                    )
                }
            },
            Stage::Height => {
                let acc = (self.acc << 7) | ((octet & DATA_MASK) as u32);
                let ghost m = self.width_end@;
                proof {
                    lemma_varint_end_some(old_seen, 2, m - 1);
                    lemma_varint_end_none(old_seen, m);
                    lemma_varint_end_some(now, 2, m - 1);
                    lemma_varint_u32_push(old_seen.subrange(m, len), octet);
                    assert(now.subrange(m, len + 1) =~= old_seen.subrange(m, len).push(octet));
                    assert(now.subrange(2, m) =~= old_seen.subrange(2, m));
                }
                if octet & CONTINUATION_MASK != 0 {
                    proof {
                        lemma_varint_end_none(now, m);
                    }
                    Ok(
                        HeaderProgress::Pending(
                            HeaderParser {
                                stage: Stage::Height,
                                width: self.width,
                                acc,
                                seen: Ghost(now),
                                width_end: Ghost(m),
                            },
                        ),
                    )
                } else {
                    proof {
                        lemma_varint_end_some(now, m, len);
                    }
                    Ok(HeaderProgress::Complete { width: self.width, height: acc })
                }
            },
        }
    }
}

} // verus!
