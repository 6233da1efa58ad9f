//! Telling the video devices apart by the names of their nodes: a name is
//! the kind of the device followed, as a rule, by its number.

use itertools::Itertools;
use vstd::prelude::*;

verus! {

/// The kinds of device node, in the order in which a name is tried
/// against them.
#[derive(Copy, Clone, Debug, PartialEq, Eq, Structural)]
pub enum Kind {
    Video,
    Radio,
    Vbi,
    SwRadio,
    Subdev,
    Touch,
    Media,
}

/// The text that the names of the nodes of `kind` begin with.
pub open spec fn label(kind: Kind) -> Seq<char> {
    match kind {
        Kind::Video => "video"@,
        Kind::Radio => "radio"@,
        Kind::Vbi => "vbi"@,
        Kind::SwRadio => "swradio"@,
        Kind::Subdev => "v4l-subdev"@,
        Kind::Touch => "v4l-touch"@,
        Kind::Media => "media"@,
    }
}

/// The bytes that the names of the nodes of `kind` begin with.
pub open spec fn prefix(kind: Kind) -> Seq<u8> {
    label(kind).map_values(|c: char| c as u8)
}

/// Whether `name` is the name of a node of `kind`.
pub open spec fn named(name: Seq<u8>, kind: Kind) -> bool {
    prefix(kind).is_prefix_of(name)
}

/// What a name of `kind` says: the kind, and the number that follows the
/// prefix, if one does.
pub open spec fn entry(name: Seq<u8>, kind: Kind) -> (Kind, Option<u32>) {
    (kind, number(name.skip(prefix(kind).len() as int)))
}

/// Whether `b` is a decimal digit.
pub open spec fn is_digit(b: u8) -> bool {
    '0' as u8 <= b <= '9' as u8
}

/// Whether `s` holds decimal digits only.
pub open spec fn all_digits(s: Seq<u8>) -> bool {
    forall|i: int| 0 <= i < s.len() ==> is_digit(#[trigger] s[i])
}

/// The number that the decimal digits `s` write.
pub open spec fn value(s: Seq<u8>) -> nat
    decreases s.len(),
{
    if s.len() == 0 {
        0
    } else {
        value(s.drop_last()) * 10 + (s.last() - '0' as u8) as nat
    }
}

/// `s` without the plus sign that it may start with.
pub open spec fn unsigned(s: Seq<u8>) -> Seq<u8> {
    if s.len() > 0 && s[0] == '+' as u8 {
        s.skip(1)
    } else {
        s
    }
}

/// The number that `s` writes: decimal digits, at least one, after at most
/// one plus sign, which together write a number that fits `u32`. `None`
/// for anything else.
pub open spec fn number(s: Seq<u8>) -> Option<u32> {
    let digits = unsigned(s);
    if digits.len() > 0 && all_digits(digits) && value(digits) <= u32::MAX {
        Some(value(digits) as u32)
    } else {
        None
    }
}

/// What the name of a node says of its device: the first kind whose prefix
/// the name starts with, and the number that the rest of the name writes,
/// if it writes one. `None` for a name that starts with no prefix.
pub open spec fn classified(name: Seq<u8>) -> Option<(Kind, Option<u32>)> {
    if named(name, Kind::Video) {
        Some(entry(name, Kind::Video))
    } else if named(name, Kind::Radio) {
        Some(entry(name, Kind::Radio))
    } else if named(name, Kind::Vbi) {
        Some(entry(name, Kind::Vbi))
    } else if named(name, Kind::SwRadio) {
        Some(entry(name, Kind::SwRadio))
    } else if named(name, Kind::Subdev) {
        Some(entry(name, Kind::Subdev))
    } else if named(name, Kind::Touch) {
        Some(entry(name, Kind::Touch))
    } else if named(name, Kind::Media) {
        Some(entry(name, Kind::Media))
    } else {
        None
    }
}

/// Digits that follow only add to a number.
proof fn lemma_value_grows(s: Seq<u8>, k: int)
    requires
        all_digits(s),
        0 <= k <= s.len(),
    ensures
        value(s.take(k)) <= value(s),
    decreases s.len() - k,
{
    if k < s.len() {
        lemma_value_grows(s, k + 1);
        assert(s.take(k + 1).drop_last() =~= s.take(k));
        assert(is_digit(s[k]));
    } else {
        assert(s.take(k) =~= s);
    }
}

impl Kind {
    /// The prefix of the kind, as the text that stands in a node's name.
    pub fn name(self) -> (text: &'static str)
        ensures
            text@ == label(self),
    {
        match self {
            Kind::Video => "video",
            Kind::Radio => "radio",
            Kind::Vbi => "vbi",
            Kind::SwRadio => "swradio",
            Kind::Subdev => "v4l-subdev",
            Kind::Touch => "v4l-touch",
            Kind::Media => "media",
        }
    }

    fn prefix_bytes(self) -> (bytes: Vec<u8>)
        ensures
            bytes@ == prefix(self),
    {
        let bytes: Vec<u8> = match self {
            Kind::Video => vec!['v' as u8, 'i' as u8, 'd' as u8, 'e' as u8, 'o' as u8],
            Kind::Radio => vec!['r' as u8, 'a' as u8, 'd' as u8, 'i' as u8, 'o' as u8],
            Kind::Vbi => vec!['v' as u8, 'b' as u8, 'i' as u8],
            Kind::SwRadio => vec!['s' as u8, 'w' as u8, 'r' as u8, 'a' as u8, 'd' as u8, 'i' as u8, 'o' as u8],
            Kind::Subdev => vec!['v' as u8, '4' as u8, 'l' as u8, '-' as u8, 's' as u8, 'u' as u8, 'b' as u8, 'd' as u8, 'e' as u8, 'v' as u8],
            Kind::Touch => vec!['v' as u8, '4' as u8, 'l' as u8, '-' as u8, 't' as u8, 'o' as u8, 'u' as u8, 'c' as u8, 'h' as u8],
            Kind::Media => vec!['m' as u8, 'e' as u8, 'd' as u8, 'i' as u8, 'a' as u8],
        };
        proof {
            reveal_strlit("video");
            reveal_strlit("radio");
            reveal_strlit("vbi");
            reveal_strlit("swradio");
            reveal_strlit("v4l-subdev");
            reveal_strlit("v4l-touch");
            reveal_strlit("media");
        }
        assert(bytes@ =~= prefix(self));
        bytes
    }
}

fn starts_with(name: &[u8], start: &Vec<u8>) -> (r: bool)
    ensures
        r == start@.is_prefix_of(name@),
{
    let n: usize = start.len();
    if name.len() < n {
        return false;
    }
    let mut i: usize = 0;
    while i < n
        invariant
            i <= n,
            n == start@.len(),
            n <= name@.len(),
            forall|j: int| 0 <= j < i ==> start@[j] == name@[j],
        decreases n - i,
    {
        if name[i] != start[i] {
            assert(start@[i as int] != name@.subrange(0, n as int)[i as int]);
            return false;
        }
        i = i + 1;
    }
    assert(start@ =~= name@.subrange(0, n as int));
    true
}

/// Reads the number that the bytes of `name` from position `from` on
/// write.
pub fn parse_number(name: &[u8], from: usize) -> (r: Option<u32>)
    requires
        from <= name@.len(),
    ensures
        r == number(name@.skip(from as int)),
{
    let n: usize = name.len();
    let ghost text = name@.skip(from as int);
    let mut i: usize = from;
    if i < n && name[i] == '+' as u8 {
        i = i + 1;
    }
    let start: usize = i;
    let ghost digits = name@.skip(start as int);
    assert(digits =~= unsigned(text));
    if start == n {
        return None;
    }
    let mut acc: u64 = 0;
    while i < n
        invariant
            start <= i <= n,
            n == name@.len(),
            digits == name@.skip(start as int),
            digits == unsigned(name@.skip(from as int)),
            start < n,
            all_digits(digits.take(i - start)),
            acc == value(digits.take(i - start)),
            acc <= u32::MAX,
        decreases n - i,
    {
        let b: u8 = name[i];
        if b < '0' as u8 || b > '9' as u8 {
            assert(!is_digit(digits[i - start]));
            return None;
        }
        proof {
            assert(digits.take(i + 1 - start).drop_last() =~= digits.take(i - start));
        }
        acc = acc * 10 + (b - '0' as u8) as u64;
        if acc > 0xffff_ffff {
            proof {
                if all_digits(digits) {
                    lemma_value_grows(digits, i + 1 - start);
                }
            }
            return None;
        }
        i = i + 1;
    }
    assert(digits.take(n - start) =~= digits);
    Some(acc as u32)
}

/// What the name of a device node says of its device: its kind and, where
/// the name ends in one, its number. `None` for a name of no known kind.
pub fn classify(name: &[u8]) -> (r: Option<(Kind, Option<u32>)>)
    ensures
        r == classified(name@),
{
    let kinds: [Kind; 7] = [
        Kind::Video,
        Kind::Radio,
        Kind::Vbi,
        Kind::SwRadio,
        Kind::Subdev,
        Kind::Touch,
        Kind::Media,
    ];
    let mut i: usize = 0;
    while i < 7
        invariant
            i <= 7,
            kinds@ == seq![
                Kind::Video,
                Kind::Radio,
                Kind::Vbi,
                Kind::SwRadio,
                Kind::Subdev,
                Kind::Touch,
                Kind::Media,
            ],
            forall|j: int| 0 <= j < i ==> !named(name@, #[trigger] kinds@[j]),
        decreases 7 - i,
    {
        let kind: Kind = kinds[i];
        let start: Vec<u8> = kind.prefix_bytes();
        if starts_with(name, &start) {
            let number: Option<u32> = parse_number(name, start.len());
            return Some((kind, number));
        }
        i = i + 1;
    }
    assert(forall|j: int| 0 <= j < 7 ==> !named(name@, #[trigger] kinds@[j]));
    assert(kinds@[0] == Kind::Video && kinds@[1] == Kind::Radio && kinds@[2] == Kind::Vbi
        && kinds@[3] == Kind::SwRadio && kinds@[4] == Kind::Subdev && kinds@[5] == Kind::Touch
        && kinds@[6] == Kind::Media);
    None
}

/// A frame size that a device offers.
#[derive(Copy, Clone, Debug, PartialEq, Eq, Structural)]
pub enum FrameSize {
    /// Exactly this width and height.
    Discrete(u32, u32),
    /// Any size within a range, in steps.
    Stepwise,
}

/// The number of pixels of a frame of `size`.
pub open spec fn area(size: (u32, u32)) -> int {
    size.0 * size.1
}

/// The widths and heights of the discrete sizes among `sizes`, in order.
pub open spec fn discrete(sizes: Seq<FrameSize>) -> Seq<(u32, u32)>
    decreases sizes.len(),
{
    if sizes.len() == 0 {
        Seq::empty()
    } else {
        match sizes.last() {
            FrameSize::Discrete(w, h) => discrete(sizes.drop_last()).push((w, h)),
            FrameSize::Stepwise => discrete(sizes.drop_last()),
        }
    }
}

/// `out` holds the sizes of `input`, each taken from the position that
/// `from` names, smaller areas first and equal areas in the order in which
/// they stand in `input`.
pub open spec fn arranges(input: Seq<(u32, u32)>, out: Seq<(u32, u32)>, from: Seq<int>) -> bool {
    &&& from.len() == input.len()
    &&& out.len() == input.len()
    &&& forall|i: int|
        0 <= i < out.len() ==> 0 <= #[trigger] from[i] < input.len() && out[i] == input[from[i]]
    &&& forall|i: int, j: int|
        0 <= i < j < out.len() ==> area(#[trigger] out[i]) < area(#[trigger] out[j]) || (area(
            out[i],
        ) == area(out[j]) && from[i] < from[j])
}

/// `out` is `input` in ascending order of area, sizes of equal area in the
/// order of `input`.
pub open spec fn ordered_by_area(input: Seq<(u32, u32)>, out: Seq<(u32, u32)>) -> bool {
    exists|from: Seq<int>| arranges(input, out, from)
}

/// The number of pixels of a frame of `size`.
pub fn area_of(size: (u32, u32)) -> (pixels: u64)
    ensures
        pixels == area(size),
{
    assert(0 <= size.0 * size.1 <= 0xffff_ffff * 0xffff_ffff) by (nonlinear_arith)
        requires
            0 <= size.0 <= 0xffff_ffff,
            0 <= size.1 <= 0xffff_ffff,
    ;
    size.0 as u64 * size.1 as u64
}

/// Calls `Itertools::sorted_by_key` with the area as the key. Not proved,
/// but taken from that function's description: it hands back all the
/// elements in ascending order of their keys, and does not reorder
/// elements of equal keys.
#[verifier::external_body]
fn sorted_by_area(sizes: Vec<(u32, u32)>) -> (out: Vec<(u32, u32)>)
    ensures
        ordered_by_area(sizes@, out@),
{
    sizes.into_iter().sorted_by_key(|size| area_of(*size)).collect()
}

/// The discrete sizes among `sizes`, smallest area first; sizes of equal
/// area stay in the order in which the device named them.
pub fn discrete_sizes_by_area(sizes: &[FrameSize]) -> (out: Vec<(u32, u32)>)
    ensures
        ordered_by_area(discrete(sizes@), out@),
{
    let n: usize = sizes.len();
    let mut found: Vec<(u32, u32)> = Vec::new();
    let mut i: usize = 0;
    while i < n
        invariant
            i <= n,
            n == sizes@.len(),
            found@ == discrete(sizes@.take(i as int)),
        decreases n - i,
    {
        proof {
            assert(sizes@.take(i + 1).drop_last() =~= sizes@.take(i as int));
        }
        match sizes[i] {
            FrameSize::Discrete(w, h) => found.push((w, h)),
            FrameSize::Stepwise => {},
        }
        i = i + 1;
    }
    proof {
        assert(sizes@.take(n as int) =~= sizes@);
    }
    sorted_by_area(found)
}

} // verus!
