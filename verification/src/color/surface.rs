//! Authored colours, and which two moments of a loop a field is between.

use vstd::prelude::*;
use vstd::string::*;
use vstd::utf8::{encode_scalar, encode_utf8};

use crate::order::{in_order, stable_order};
use crate::text::{chars_of, string_of, texts, trim, trimmed, white_space};

verus! {

/// A colour as it was authored: sRGB channels, and opacity.
#[derive(Clone, Copy, Debug, PartialEq, Eq, Structural)]
pub struct Pigment {
    pub r: u8,
    pub g: u8,
    pub b: u8,
    /// Coverage, not light: 255 is fully covering.
    pub alpha: u8,
}

/// The value of a hexadecimal digit.
pub open spec fn hex_value(c: char) -> Option<nat> {
    let n = c as int;
    if 48 <= n <= 57 {
        Some((n - 48) as nat)
    } else if 97 <= n <= 102 {
        Some((n - 87) as nat)
    } else if 65 <= n <= 70 {
        Some((n - 55) as nat)
    } else {
        None
    }
}

/// The number some hexadecimal digits make, the largest first.
pub open spec fn hex_digits(s: Seq<char>) -> Option<nat>
    decreases s.len(),
{
    if s.len() == 0 {
        Some(0)
    } else {
        match (hex_digits(s.drop_last()), hex_value(s.last())) {
            (Some(n), Some(d)) => Some(16 * n + d),
            _ => None,
        }
    }
}

/// The number a text is in hexadecimal. At least one digit is needed, and
/// nothing but digits will do.
pub open spec fn hex_number(s: Seq<char>) -> Option<nat> {
    if s.len() == 0 {
        None
    } else {
        hex_digits(s)
    }
}

/// A text without the hash it starts with, where it has one.
pub open spec fn without_hash(s: Seq<char>) -> Seq<char> {
    if s.len() > 0 && s[0] == '#' {
        s.skip(1)
    } else {
        s
    }
}

/// What is wrong with a colour, or the colour it is.
pub ghost enum Reading {
    Colour(Pigment),
    NotHex,
    WrongLength,
}

/// Six digits as a colour, fully opaque.
pub open spec fn opaque(n: nat) -> Pigment {
    Pigment {
        r: (n / 65536 % 256) as u8,
        g: (n / 256 % 256) as u8,
        b: (n % 256) as u8,
        alpha: 255,
    }
}

/// Eight digits as a colour with an opacity.
pub open spec fn translucent(n: nat) -> Pigment {
    Pigment {
        r: (n / 16777216 % 256) as u8,
        g: (n / 65536 % 256) as u8,
        b: (n / 256 % 256) as u8,
        alpha: (n % 256) as u8,
    }
}

/// How a colour reads: white space around it and a hash in front of it do not
/// count, six bytes are opaque and eight carry an opacity.
pub open spec fn reading(s: Seq<char>) -> Reading {
    let t = without_hash(trimmed(s));
    let bytes = encode_utf8(t).len();
    if bytes != 6 && bytes != 8 {
        Reading::WrongLength
    } else {
        match hex_number(t) {
            None => Reading::NotHex,
            Some(n) => if bytes == 6 {
                Reading::Colour(opaque(n))
            } else {
                Reading::Colour(translucent(n))
            },
        }
    }
}

/// What is said of a colour that is not hexadecimal.
pub open spec fn not_hex(s: Seq<char>) -> Seq<char> {
    "colour '"@ + s + "' is not valid hex"@
}

/// What is said of a colour of another length.
pub open spec fn wrong_length(s: Seq<char>) -> Seq<char> {
    "colour '"@ + s
        + "' must be 6 hex digits, or 8 with an opacity byte, optionally prefixed with '#'"@
}

/// Whether an outcome is what a colour reads as.
pub open spec fn reads_as(s: Seq<char>, outcome: Result<Pigment, String>) -> bool {
    match reading(s) {
        Reading::Colour(p) => outcome matches Ok(q) && q == p,
        Reading::NotHex => outcome matches Err(e) && e@ == not_hex(s),
        Reading::WrongLength => outcome matches Err(e) && e@ == wrong_length(s),
    }
}

/// Sixteen to a power.
pub open spec fn sixteens(k: nat) -> nat
    decreases k,
{
    if k == 0 {
        1
    } else {
        16 * sixteens((k - 1) as nat)
    }
}

proof fn lemma_bytes_are_not_fewer(s: Seq<char>)
    ensures
        s.len() <= encode_utf8(s).len(),
    decreases s.len(),
{
    if s.len() > 0 {
        lemma_bytes_are_not_fewer(s.drop_first());
        assert(encode_scalar(s[0] as u32).len() >= 1);
    }
}

proof fn lemma_bad_digit(s: Seq<char>, n: int)
    requires
        0 <= n <= s.len(),
        hex_digits(s.take(n)) is None,
    ensures
        hex_digits(s) is None,
    decreases s.len() - n,
{
    if n < s.len() {
        assert(s.take(n + 1).drop_last() =~= s.take(n));
        lemma_bad_digit(s, n + 1);
    } else {
        assert(s.take(n) =~= s);
    }
}

fn digit_value(c: char) -> (d: Option<u8>)
    ensures
        match d {
            Some(v) => hex_value(c) == Some(v as nat) && v < 16,
            None => hex_value(c) is None,
        },
{
    let n: u32 = c as u32;
    if 48 <= n && n <= 57 {
        Some((n - 48) as u8)
    } else if 97 <= n && n <= 102 {
        Some((n - 87) as u8)
    } else if 65 <= n && n <= 70 {
        Some((n - 55) as u8)
    } else {
        None
    }
}

fn parse_hex(chars: &[char]) -> (value: Option<u32>)
    requires
        chars@.len() <= 8,
    ensures
        match value {
            Some(n) => hex_number(chars@) == Some(n as nat),
            None => hex_number(chars@) is None,
        },
{
    if chars.len() == 0 {
        return None;
    }
    let mut n: u64 = 0;
    let mut i: usize = 0;
    assert(chars@.take(0) =~= Seq::<char>::empty());
    while i < chars.len()
        invariant
            i <= chars@.len(),
            0 < chars@.len() <= 8,
            hex_digits(chars@.take(i as int)) == Some(n as nat),
            n < sixteens(i as nat),
        decreases chars@.len() - i,
    {
        proof {
            assert(chars@.take(i + 1).drop_last() =~= chars@.take(i as int));
            lemma_sixteens(i as nat);
        }
        match digit_value(chars[i]) {
            Some(d) => {
                n = 16 * n + d as u64;
            },
            None => {
                proof {
                    lemma_bad_digit(chars@, i + 1);
                }
                return None;
            },
        }
        i += 1;
    }
    proof {
        lemma_sixteens(i as nat);
        assert(chars@.take(i as int) =~= chars@);
    }
    Some(n as u32)
}

proof fn lemma_sixteens(k: nat)
    requires
        k <= 8,
    ensures
        sixteens(k) <= 0x1_0000_0000,
{
    reveal_with_fuel(sixteens, 9);
}

/// Parse a colour: six hexadecimal digits, or eight with an opacity byte, with
/// or without a hash. Six is fully opaque, which is what lets a preset saved
/// before opacity existed load with the appearance it had.
pub fn parse_color(s: &str) -> (outcome: Result<Pigment, String>)
    ensures
        reads_as(s@, outcome),
{
    let bare = trim(s);
    let chars = chars_of(bare.as_str());
    let start: usize = if chars.len() > 0 && chars[0] == '#' {
        1
    } else {
        0
    };
    let body = vstd::slice::slice_subrange(chars.as_slice(), start, chars.len());
    assert(body@ =~= without_hash(trimmed(s@)));
    let text = string_of(body);
    let bytes: usize = text.as_str().as_bytes().len();
    if bytes != 6 && bytes != 8 {
        let mut e = String::new();
        e.append("colour '");
        e.append(s);
        e.append(
            "' must be 6 hex digits, or 8 with an opacity byte, optionally prefixed with '#'",
        );
        assert(e@ =~= wrong_length(s@));
        return Err(e);
    }
    proof {
        lemma_bytes_are_not_fewer(body@);
    }
    match parse_hex(body) {
        Some(n) => {
            if bytes == 6 {
                Ok(
                    Pigment {
                        r: (n / 65536 % 256) as u8,
                        g: (n / 256 % 256) as u8,
                        b: (n % 256) as u8,
                        alpha: 255,
                    },
                )
            } else {
                Ok(
                    Pigment {
                        r: (n / 16777216 % 256) as u8,
                        g: (n / 65536 % 256) as u8,
                        b: (n / 256 % 256) as u8,
                        alpha: (n % 256) as u8,
                    },
                )
            }
        },
        None => {
            let mut e = String::new();
            e.append("colour '");
            e.append(s);
            e.append("' is not valid hex");
            assert(e@ =~= not_hex(s@));
            Err(e)
        },
    }
}

/// What is said of the first of some colours that is none, if any is none.
pub open spec fn first_complaint(colors: Seq<Seq<char>>, from: int) -> Option<Seq<char>>
    decreases colors.len() - from,
{
    if from >= colors.len() {
        None
    } else {
        match reading(colors[from]) {
            Reading::Colour(_) => first_complaint(colors, from + 1),
            Reading::NotHex => Some(not_hex(colors[from])),
            Reading::WrongLength => Some(wrong_length(colors[from])),
        }
    }
}

/// Parse the colours of a field. All or nothing: the first one that is not a
/// colour rejects them all, and is the one complained of.
pub fn authored(colors: &[String]) -> (outcome: Result<Vec<Pigment>, String>)
    ensures
        match first_complaint(texts(colors@), 0) {
            None => outcome matches Ok(list) && list@.len() == colors@.len() && forall|i: int|
                0 <= i < list@.len() ==> reading(colors@[i]@) == Reading::Colour(
                    #[trigger] list@[i],
                ),
            Some(complaint) => outcome matches Err(e) && e@ == complaint,
        },
{
    let ghost all = texts(colors@);
    let mut list: Vec<Pigment> = Vec::new();
    let mut i: usize = 0;
    while i < colors.len()
        invariant
            i <= colors@.len(),
            all == texts(colors@),
            list@.len() == i,
            first_complaint(all, 0) == first_complaint(all, i as int),
            forall|k: int|
                0 <= k < i ==> reading(colors@[k]@) == Reading::Colour(#[trigger] list@[k]),
        decreases colors@.len() - i,
    {
        assert(all[i as int] == colors@[i as int]@);
        match parse_color(colors[i].as_str()) {
            Ok(p) => {
                list.push(p);
            },
            Err(e) => {
                return Err(e);
            },
        }
        i += 1;
    }
    Ok(list)
}

/// The order in which the keys of a timeline are played: by their place in the
/// loop, those at one place as they were authored.
pub fn playing_order(places: &[u64]) -> (order: Vec<usize>)
    ensures
        in_order(places@, order@),
{
    stable_order(places)
}

/// How many points every moment of a loop is padded to: as many as the fullest
/// has.
pub fn width(counts: &[usize]) -> (n: usize)
    ensures
        forall|i: int| 0 <= i < counts@.len() ==> (#[trigger] counts@[i]) <= n,
        counts@.len() == 0 ==> n == 0,
        counts@.len() > 0 ==> counts@.contains(n),
{
    let mut n: usize = 0;
    let mut i: usize = 0;
    while i < counts.len()
        invariant
            i <= counts@.len(),
            forall|k: int| 0 <= k < i ==> (#[trigger] counts@[k]) <= n,
            i == 0 ==> n == 0,
            i > 0 ==> counts@.contains(n),
        decreases counts@.len() - i,
    {
        if i == 0 || counts[i] > n {
            n = counts[i];
            assert(counts@[i as int] == n);
        }
        i += 1;
    }
    n
}

/// The two moments of a loop a phase is between, going past the last one back to
/// the first.
pub open spec fn between(places: Seq<u64>, phase: u64, from: int, to: int) -> bool {
    let n = places.len();
    &&& 0 <= from < n
    &&& to == (if from + 1 == n {
        0
    } else {
        from + 1
    })
    &&& if phase < places[0] {
        from == n - 1
    } else {
        &&& forall|i: int| 1 <= i <= from ==> (#[trigger] places[i]) <= phase
        &&& from + 1 < n ==> places[from + 1] > phase
    }
}

/// The two moments of a loop a phase is between. A phase before the first moment
/// is still inside the wrap from the last.
pub fn bracket(places: &[u64], phase: u64) -> (pair: (usize, usize))
    requires
        places@.len() > 0,
    ensures
        between(places@, phase, pair.0 as int, pair.1 as int),
{
    let n: usize = places.len();
    if phase < places[0] {
        return (n - 1, 0);
    }
    let mut i: usize = 0;
    while i + 1 < n && places[i + 1] <= phase
        invariant
            n == places@.len(),
            i < n,
            forall|k: int| 1 <= k <= i ==> (#[trigger] places@[k]) <= phase,
        decreases n - i,
    {
        i += 1;
    }
    if i + 1 == n {
        (i, 0)
    } else {
        (i, i + 1)
    }
}

/// How a point crosses from one moment to the next.
#[derive(Clone, Copy, Debug, PartialEq, Eq, Structural)]
pub enum Crossing {
    /// Authored at both ends: everything about it is interpolated.
    Mixed,
    /// Authored only where the span starts: it fades out across it.
    FadingOut,
    /// Authored only where the span ends: it fades in across it.
    FadingIn,
    Absent,
}

/// How a point crosses from one moment to the next. A point authored at one end
/// only fades rather than appearing or vanishing between two frames.
pub fn crossing(start: bool, end: bool) -> (how: Crossing)
    ensures
        how == if start && end {
            Crossing::Mixed
        } else if start {
            Crossing::FadingOut
        } else if end {
            Crossing::FadingIn
        } else {
            Crossing::Absent
        },
{
    match (start, end) {
        (true, true) => Crossing::Mixed,
        (true, false) => Crossing::FadingOut,
        (false, true) => Crossing::FadingIn,
        (false, false) => Crossing::Absent,
    }
}

/// A loop has no gap: where the moments are in order, a phase has passed the
/// moment it comes from, and not the one it goes to, unless that is across the
/// wrap.
pub proof fn law_a_phase_is_between_its_moments(
    places: Seq<u64>,
    phase: u64,
    from: int,
    to: int,
)
    requires
        between(places, phase, from, to),
        forall|i: int, j: int|
            0 <= i <= j < places.len() ==> (#[trigger] places[i]) <= (#[trigger] places[j]),
    ensures
        0 <= from < places.len(),
        0 <= to < places.len(),
        to == from + 1 ==> places[from] <= phase < places[to],
        to != from + 1 ==> from == places.len() - 1 && to == 0,
        to != from + 1 ==> phase < places[0] || places[from] <= phase,
{
}

/// Six digits are the eight that say fully covering.
pub proof fn law_six_digits_are_opaque(n: nat)
    requires
        n < 0x100_0000,
    ensures
        opaque(n) == translucent(256 * n + 255),
{
    let m = 256 * n + 255;
    assert(m / 256 == n);
    assert(m / 65536 == n / 256);
    assert(m / 16777216 == n / 65536);
    assert(m % 256 == 255);
}

/// A hexadecimal digit counts for what it is, in capitals or not, and nothing
/// else is one.
pub proof fn law_a_hex_digit_counts_for_what_it_is(c: char)
    ensures
        '0' <= c <= '9' ==> hex_value(c) == Some((c as int - '0' as int) as nat),
        'a' <= c <= 'f' ==> hex_value(c) == Some((10 + c as int - 'a' as int) as nat),
        'A' <= c <= 'F' ==> hex_value(c) == Some((10 + c as int - 'A' as int) as nat),
        hex_value(c) is Some ==> '0' <= c <= '9' || 'a' <= c <= 'f' || 'A' <= c <= 'F',
{
}

/// The channels of a colour put back together are the number its digits make:
/// of six, red, green and blue from the top, fully covering; of eight, with the
/// opacity last.
pub proof fn law_the_channels_are_the_number(s: Seq<char>, p: Pigment, n: nat)
    requires
        reading(s) == Reading::Colour(p),
        hex_number(without_hash(trimmed(s))) == Some(n),
    ensures
        without_hash(trimmed(s)).len() == 6 ==> 65536 * p.r + 256 * p.g + p.b == n && p.alpha
            == 255,
        without_hash(trimmed(s)).len() == 8 ==> 16777216 * p.r + 65536 * p.g + 256 * p.b + p.alpha
            == n,
        without_hash(trimmed(s)).len() == 6 || without_hash(trimmed(s)).len() == 8,
{
    let t = without_hash(trimmed(s));
    lemma_digits_are_bytes(t);
    lemma_digits_bound(t);
    reveal_with_fuel(sixteens, 9);
    if t.len() == 6 {
        lemma_three_bytes(n as int);
    } else {
        lemma_four_bytes(n as int);
    }
}

/// A colour of plain digits reads as its digits say, two to a channel, whether or
/// not a hash comes first.
pub proof fn law_each_channel_is_its_own_two_digits(t: Seq<char>, hashed: bool)
    requires
        t.len() == 6 || t.len() == 8,
        forall|i: int| 0 <= i < t.len() ==> hex_value(#[trigger] t[i]) is Some,
    ensures
        ({
            let s = if hashed {
                seq!['#'] + t
            } else {
                t
            };
            &&& reading(s) matches Reading::Colour(p) && {
                &&& p.r == 16 * hex_value(t[0])->0 + hex_value(t[1])->0
                &&& p.g == 16 * hex_value(t[2])->0 + hex_value(t[3])->0
                &&& p.b == 16 * hex_value(t[4])->0 + hex_value(t[5])->0
                &&& p.alpha == if t.len() == 8 {
                    16 * hex_value(t[6])->0 + hex_value(t[7])->0
                } else {
                    255
                }
            }
        }),
{
    let s = if hashed {
        seq!['#'] + t
    } else {
        t
    };
    lemma_nothing_to_trim(t, hashed);
    lemma_all_digits(t);
    lemma_digits_are_bytes(t);
    let p = reading(s)->Colour_0;
    let n = hex_digits(t)->0;
    law_the_channels_are_the_number(s, p, n);
    lemma_pairs_are_channels(t, p, n);
}

proof fn lemma_pairs_are_channels(t: Seq<char>, p: Pigment, n: nat)
    requires
        t.len() == 6 || t.len() == 8,
        forall|i: int| 0 <= i < t.len() ==> hex_value(#[trigger] t[i]) is Some,
        hex_digits(t) == Some(n),
        t.len() == 6 ==> 65536 * p.r + 256 * p.g + p.b == n,
        t.len() == 8 ==> 16777216 * p.r + 65536 * p.g + 256 * p.b + p.alpha == n,
    ensures
        p.r == 16 * hex_value(t[0])->0 + hex_value(t[1])->0,
        p.g == 16 * hex_value(t[2])->0 + hex_value(t[3])->0,
        p.b == 16 * hex_value(t[4])->0 + hex_value(t[5])->0,
        t.len() == 8 ==> p.alpha == 16 * hex_value(t[6])->0 + hex_value(t[7])->0,
{
    assert(t.take(t.len() as int) =~= t);
    lemma_last_pair(t, t.len() as int);
    lemma_last_pair(t, t.len() - 2);
    lemma_last_pair(t, t.len() - 4);
    assert(hex_digits(t.take(0)) == Some(0nat));
    let whole = hex_digits(t.take(t.len() - 2))->0 as int;
    let more = hex_digits(t.take(t.len() - 4))->0 as int;
    let most = hex_digits(t.take(t.len() - 6))->0 as int;
    let last = lemma_pair_is_a_byte(t, t.len() - 2);
    let third = lemma_pair_is_a_byte(t, t.len() - 4);
    let second = lemma_pair_is_a_byte(t, t.len() - 6);
    if t.len() == 8 {
        lemma_last_pair(t, 2);
        lemma_byte_off(65536 * p.r + 256 * p.g + p.b, p.alpha as int, whole, last);
        lemma_byte_off(256 * p.r + p.g, p.b as int, more, third);
        lemma_byte_off(p.r as int, p.g as int, most, second);
    } else {
        lemma_byte_off(256 * p.r + p.g, p.b as int, whole, last);
        lemma_byte_off(p.r as int, p.g as int, more, third);
    }
}

proof fn lemma_pair_is_a_byte(t: Seq<char>, i: int) -> (byte: int)
    requires
        0 <= i < t.len() - 1,
    ensures
        byte == 16 * hex_value(t[i])->0 + hex_value(t[i + 1])->0,
        hex_value(t[i]) is Some && hex_value(t[i + 1]) is Some ==> 0 <= byte < 256,
{
    (16 * hex_value(t[i])->0 + hex_value(t[i + 1])->0) as int
}

/// Two numbers of the same last byte and the same rest are made the same way.
proof fn lemma_byte_off(a: int, x: int, b: int, y: int)
    requires
        256 * a + x == 256 * b + y,
        0 <= x < 256,
        0 <= y < 256,
    ensures
        a == b,
        x == y,
{
}

proof fn lemma_nothing_to_trim(t: Seq<char>, hashed: bool)
    requires
        t.len() > 0,
        forall|i: int| 0 <= i < t.len() ==> hex_value(#[trigger] t[i]) is Some,
    ensures
        without_hash(
            trimmed(
                if hashed {
                    seq!['#'] + t
                } else {
                    t
                },
            ),
        ) == t,
{
    let s = if hashed {
        seq!['#'] + t
    } else {
        t
    };
    assert(s.last() == t[t.len() - 1]);
    assert(hex_value(t[0]) is Some && hex_value(t[t.len() - 1]) is Some);
    assert(!white_space(s[0]) && !white_space(s.last()));
    assert(trimmed(s) == s);
    assert(without_hash(s) =~= t);
}

/// The last two of some digits are one byte more.
proof fn lemma_last_pair(t: Seq<char>, n: int)
    requires
        2 <= n <= t.len(),
        forall|i: int| 0 <= i < t.len() ==> hex_value(#[trigger] t[i]) is Some,
    ensures
        hex_digits(t.take(n)) is Some,
        hex_digits(t.take(n - 2)) is Some,
        hex_digits(t.take(n))->0 == 256 * hex_digits(t.take(n - 2))->0 + 16 * hex_value(t[n - 2])->0
            + hex_value(t[n - 1])->0,
{
    assert(t.take(n).drop_last() =~= t.take(n - 1));
    assert(t.take(n - 1).drop_last() =~= t.take(n - 2));
    assert(t.take(n).last() == t[n - 1] && t.take(n - 1).last() == t[n - 2]);
    lemma_all_digits(t.take(n - 2));
    assert(hex_digits(t.take(n - 1)) == Some(
        (16 * hex_digits(t.take(n - 2))->0 + hex_value(t[n - 2])->0) as nat,
    ));
}

/// What is not six or eight digits is no colour, and says which of the two it
/// fails by.
pub proof fn law_only_digits_are_a_colour(s: Seq<char>)
    ensures
        reading(s) is Colour ==> ({
            let t = without_hash(trimmed(s));
            &&& t.len() == 6 || t.len() == 8
            &&& forall|i: int| 0 <= i < t.len() ==> hex_value(#[trigger] t[i]) is Some
        }),
        reading(s) is WrongLength <==> encode_utf8(without_hash(trimmed(s))).len() != 6
            && encode_utf8(without_hash(trimmed(s))).len() != 8,
{
    let t = without_hash(trimmed(s));
    if reading(s) is Colour {
        lemma_digits_are_bytes(t);
        assert forall|i: int| 0 <= i < t.len() implies hex_value(#[trigger] t[i]) is Some by {
            if hex_value(t[i]) is None {
                assert(t.take(i + 1).last() == t[i]);
                lemma_bad_digit(t, i + 1);
            }
        }
    }
}

proof fn lemma_all_digits(t: Seq<char>)
    requires
        forall|i: int| 0 <= i < t.len() ==> hex_value(#[trigger] t[i]) is Some,
    ensures
        hex_digits(t) is Some,
    decreases t.len(),
{
    if t.len() > 0 {
        assert forall|i: int| 0 <= i < t.len() - 1 implies hex_value(
            #[trigger] t.drop_last()[i],
        ) is Some by {
            assert(t.drop_last()[i] == t[i]);
        }
        lemma_all_digits(t.drop_last());
        assert(t.last() == t[t.len() - 1]);
    }
}

/// Digits take one byte each.
proof fn lemma_digits_are_bytes(t: Seq<char>)
    requires
        hex_digits(t) is Some,
    ensures
        encode_utf8(t).len() == t.len(),
    decreases t.len(),
{
    if t.len() > 0 {
        if hex_value(t[0]) is None {
            assert(t.take(1).last() == t[0]);
            lemma_bad_digit(t, 1);
        }
        assert(encode_scalar(t[0] as u32).len() == 1);
        lemma_tail_digits(t);
        lemma_digits_are_bytes(t.drop_first());
    }
}

proof fn lemma_tail_digits(t: Seq<char>)
    requires
        t.len() > 0,
        hex_digits(t) is Some,
    ensures
        hex_digits(t.drop_first()) is Some,
{
    let rest = t.drop_first();
    assert forall|i: int| 0 <= i < rest.len() implies hex_value(#[trigger] rest[i]) is Some by {
        if hex_value(rest[i]) is None {
            assert(t.take(i + 2).last() == rest[i]);
            lemma_bad_digit(t, i + 2);
        }
    }
    lemma_all_digits(rest);
}

proof fn lemma_digits_bound(t: Seq<char>)
    requires
        hex_digits(t) is Some,
    ensures
        hex_digits(t)->0 < sixteens(t.len()),
    decreases t.len(),
{
    if t.len() > 0 {
        lemma_digits_bound(t.drop_last());
    }
}

proof fn lemma_three_bytes(n: int)
    requires
        0 <= n < 0x100_0000,
    ensures
        65536 * (n / 65536 % 256) + 256 * (n / 256 % 256) + n % 256 == n,
{
    assert(n / 65536 == n / 256 / 256);
}

proof fn lemma_four_bytes(n: int)
    requires
        0 <= n < 0x1_0000_0000,
    ensures
        16777216 * (n / 16777216 % 256) + 65536 * (n / 65536 % 256) + 256 * (n / 256 % 256) + n
            % 256 == n,
{
    assert(n / 65536 == n / 256 / 256);
    assert(n / 16777216 == n / 65536 / 256);
}

} // verus!
