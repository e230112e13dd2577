//! Text helpers: building strings, decimal and hexadecimal digits, and the
//! searches the rest of the library needs.

use vstd::prelude::*;
use vstd::std_specs::iter::IteratorSpec;

verus! {

/// `String::push`: the character goes on the end and nothing else changes.
pub assume_specification[ String::push ](s: &mut String, ch: char)
    ensures
        final(s)@ == old(s)@.push(ch),
;

/// What `str::to_lowercase` returns, as the characters of its result.
pub uninterp spec fn lowercase(s: Seq<char>) -> Seq<char>;

/// Whether a character has the Unicode `White_Space` property.
pub open spec fn white_space(c: char) -> bool {
    let n = c as int;
    ||| 0x09 <= n <= 0x0D
    ||| n == 0x20
    ||| n == 0x85
    ||| n == 0xA0
    ||| n == 0x1680
    ||| 0x2000 <= n <= 0x200A
    ||| n == 0x2028
    ||| n == 0x2029
    ||| n == 0x202F
    ||| n == 0x205F
    ||| n == 0x3000
}

/// `str::to_lowercase`: Unicode lower case, a function of the characters alone
/// and independent of any locale. Which characters come out is left to the
/// name [`lowercase`].
#[verifier::external_body]
pub(crate) fn to_lowercase(s: &str) -> (out: String)
    ensures
        out@ == lowercase(s@),
{
    s.to_lowercase()
}

/// Whether a character has the Unicode `White_Space` property.
pub fn is_whitespace(c: char) -> (white: bool)
    ensures
        white == white_space(c),
{
    let n: u32 = c as u32;
    (0x09 <= n && n <= 0x0D) || n == 0x20 || n == 0x85 || n == 0xA0 || n == 0x1680 || (0x2000 <= n
        && n <= 0x200A) || n == 0x2028 || n == 0x2029 || n == 0x202F || n == 0x205F || n == 0x3000
}

/// The decimal digit for a value below ten.
pub open spec fn digit(d: nat) -> char {
    (48 + d) as char
}

/// A number in decimal, without leading zeros.
pub open spec fn decimal(n: nat) -> Seq<char>
    decreases n,
{
    if n < 10 {
        seq![digit(n)]
    } else {
        decimal(n / 10).push(digit(n % 10))
    }
}

/// Append a number in decimal.
pub fn push_decimal(out: &mut String, n: u128)
    ensures
        final(out)@ == old(out)@ + decimal(n as nat),
    decreases n,
{
    if n >= 10 {
        push_decimal(out, n / 10);
    }
    let d: u8 = 48 + (n % 10) as u8;
    let ghost before = out@;
    out.push(d as char);
    proof {
        assert(d as char == digit((n % 10) as nat));
        if n < 10 {
            assert(out@ =~= old(out)@ + decimal(n as nat));
        } else {
            assert(out@ =~= old(out)@ + decimal((n / 10) as nat).push(digit((n % 10) as nat)));
        }
    }
}

/// The hexadecimal digit for a value below sixteen, in lower case.
pub open spec fn hex_digit(d: nat) -> char {
    if d < 10 {
        (48 + d) as char
    } else {
        (87 + d) as char
    }
}

/// A byte as two hexadecimal digits.
pub open spec fn hex_byte(b: u8) -> Seq<char> {
    seq![hex_digit((b / 16) as nat), hex_digit((b % 16) as nat)]
}

fn push_hex_digit(out: &mut String, d: u8)
    requires
        d < 16,
    ensures
        final(out)@ == old(out)@.push(hex_digit(d as nat)),
{
    let c: u8 = if d < 10 {
        48 + d
    } else {
        87 + d
    };
    assert(c as char == hex_digit(d as nat));
    out.push(c as char);
}

/// Append a byte as two hexadecimal digits.
pub fn push_hex_byte(out: &mut String, b: u8)
    ensures
        final(out)@ == old(out)@ + hex_byte(b),
{
    push_hex_digit(out, b / 16);
    push_hex_digit(out, b % 16);
    assert(out@ =~= old(out)@ + hex_byte(b));
}

/// Different bytes read differently.
pub proof fn lemma_hex_tells_bytes_apart(a: u8, b: u8)
    requires
        hex_byte(a) == hex_byte(b),
    ensures
        a == b,
{
    assert(hex_byte(a)[0] == hex_byte(b)[0]);
    assert(hex_byte(a)[1] == hex_byte(b)[1]);
    assert(forall|d: nat| d < 16 ==> (#[trigger] hex_digit(d)) as int == if d < 10 {
        48 + d
    } else {
        87 + d
    });
    assert(a / 16 == b / 16);
    assert(a % 16 == b % 16);
}

/// The characters of a string, in order.
pub fn chars_of(s: &str) -> (out: Vec<char>)
    ensures
        out@ == s@,
{
    let mut out: Vec<char> = Vec::new();
    for c in it: s.chars()
        invariant
            out@ == it.seq().take(it.index() as int),
            it.seq() == s@,
    {
        out.push(c);
    }
    out
}

/// A string made of the given characters.
pub fn string_of(chars: &[char]) -> (out: String)
    ensures
        out@ == chars@,
{
    let mut out = String::new();
    let mut i: usize = 0;
    while i < chars.len()
        invariant
            i <= chars.len(),
            out@ == chars@.take(i as int),
        decreases chars.len() - i,
    {
        out.push(chars[i]);
        i += 1;
        assert(out@ =~= chars@.take(i as int));
    }
    assert(chars@.take(i as int) =~= chars@);
    out
}

/// Whether two strings hold the same characters.
pub fn same(a: &str, b: &str) -> (eq: bool)
    ensures
        eq == (a@ == b@),
{
    let mut x = a.chars();
    let mut y = b.chars();
    let ghost mut done: int = 0;
    loop
        invariant
            x.obeys_prophetic_iter_laws(),
            y.obeys_prophetic_iter_laws(),
            0 <= done <= a@.len(),
            done <= b@.len(),
            x.remaining() == a@.skip(done),
            y.remaining() == b@.skip(done),
            a@.take(done) == b@.take(done),
        decreases a@.len() - done,
    {
        let c = x.next();
        let d = y.next();
        assert(a@.skip(done).len() > 0 ==> a@.skip(done)[0] == a@[done]);
        assert(b@.skip(done).len() > 0 ==> b@.skip(done)[0] == b@[done]);
        assert(done < a@.len() ==> a@.skip(done).drop_first() =~= a@.skip(done + 1));
        assert(done < b@.len() ==> b@.skip(done).drop_first() =~= b@.skip(done + 1));
        match c {
            None => {
                assert(a@.take(done) =~= a@);
                assert(done == b@.len() ==> b@.take(done) =~= b@);
                return d.is_none();
            },
            Some(c) => {
                match d {
                    None => {
                        return false;
                    },
                    Some(d) => {
                        if c != d {
                            return false;
                        }
                        proof {
                            assert(a@.take(done + 1) =~= a@.take(done).push(a@[done]));
                            assert(b@.take(done + 1) =~= b@.take(done).push(b@[done]));
                            done = done + 1;
                        }
                    },
                }
            },
        }
    }
}

/// Whether a needle stands at a place in a text.
pub open spec fn occurs_at(hay: Seq<char>, needle: Seq<char>, at: int) -> bool {
    &&& 0 <= at
    &&& at + needle.len() <= hay.len()
    &&& hay.subrange(at, at + needle.len()) == needle
}

/// Whether a needle stands anywhere in a text.
pub open spec fn occurs(hay: Seq<char>, needle: Seq<char>) -> bool {
    exists|at: int| #[trigger] occurs_at(hay, needle, at)
}

/// Whether a needle stands at a place.
fn matches_at(hay: &[char], needle: &[char], at: usize) -> (found: bool)
    requires
        at <= hay@.len(),
    ensures
        found == occurs_at(hay@, needle@, at as int),
{
    if needle.len() > hay.len() - at {
        return false;
    }
    let h: usize = hay.len();
    let mut i: usize = 0;
    while i < needle.len()
        invariant
            i <= needle@.len(),
            h == hay@.len(),
            at + needle@.len() <= hay@.len(),
            forall|k: int| 0 <= k < i ==> hay@[at + k] == needle@[k],
        decreases needle@.len() - i,
    {
        if hay[at + i] != needle[i] {
            assert(hay@.subrange(at as int, at + needle@.len())[i as int] != needle@[i as int]);
            return false;
        }
        i += 1;
    }
    assert(hay@.subrange(at as int, at + needle@.len()) =~= needle@);
    true
}

/// The first place a needle stands at, if it stands anywhere.
pub fn find(hay: &[char], needle: &[char]) -> (at: Option<usize>)
    ensures
        match at {
            Some(i) => occurs_at(hay@, needle@, i as int) && forall|j: int|
                0 <= j < i ==> !occurs_at(hay@, needle@, j),
            None => !occurs(hay@, needle@),
        },
{
    let mut i: usize = 0;
    loop
        invariant
            i <= hay@.len(),
            forall|j: int| 0 <= j < i ==> !occurs_at(hay@, needle@, j),
        decreases hay@.len() - i,
    {
        if matches_at(hay, needle, i) {
            return Some(i);
        }
        if i == hay.len() {
            assert(forall|j: int| !occurs_at(hay@, needle@, j));
            return None;
        }
        i += 1;
    }
}

/// The first place from `from` on that a needle stands at.
pub open spec fn first_at(hay: Seq<char>, needle: Seq<char>, from: int) -> Option<int>
    decreases hay.len() - from + 1,
{
    if from + needle.len() > hay.len() {
        None
    } else if occurs_at(hay, needle, from) {
        Some(from)
    } else {
        first_at(hay, needle, from + 1)
    }
}

/// The first place a needle stands at is the one with none before it.
pub proof fn lemma_first_at(hay: Seq<char>, needle: Seq<char>, from: int)
    requires
        from >= 0,
    ensures
        match first_at(hay, needle, from) {
            Some(at) => from <= at && occurs_at(hay, needle, at) && forall|j: int|
                from <= j < at ==> !occurs_at(hay, needle, j),
            None => forall|j: int| from <= j ==> !occurs_at(hay, needle, j),
        },
    decreases hay.len() - from + 1,
{
    if from + needle.len() <= hay.len() && !occurs_at(hay, needle, from) {
        lemma_first_at(hay, needle, from + 1);
    }
}

/// Whether a needle stands anywhere in a text.
pub fn contains(hay: &str, needle: &str) -> (found: bool)
    ensures
        found == occurs(hay@, needle@),
{
    let h = chars_of(hay);
    let n = chars_of(needle);
    find(&h, &n).is_some()
}

/// Whether a text begins with another.
pub open spec fn begins(s: Seq<char>, prefix: Seq<char>) -> bool {
    occurs_at(s, prefix, 0)
}

/// Whether a text begins with another.
pub fn starts_with(s: &str, prefix: &str) -> (yes: bool)
    ensures
        yes == begins(s@, prefix@),
{
    let h = chars_of(s);
    let n = chars_of(prefix);
    matches_at(&h, &n, 0)
}

/// A text without the white space it starts with.
pub open spec fn trim_start(s: Seq<char>) -> Seq<char>
    decreases s.len(),
{
    if s.len() > 0 && white_space(s[0]) {
        trim_start(s.skip(1))
    } else {
        s
    }
}

/// A text without the white space it ends with.
pub open spec fn trim_end(s: Seq<char>) -> Seq<char>
    decreases s.len(),
{
    if s.len() > 0 && white_space(s.last()) {
        trim_end(s.drop_last())
    } else {
        s
    }
}

/// A text without the white space around it.
pub open spec fn trimmed(s: Seq<char>) -> Seq<char> {
    trim_end(trim_start(s))
}

/// A text without the white space around it.
pub fn trim(s: &str) -> (out: String)
    ensures
        out@ == trimmed(s@),
{
    let chars = chars_of(s);
    let n: usize = chars.len();
    let mut start: usize = 0;
    assert(chars@.skip(0) =~= chars@);
    while start < n && is_whitespace(chars[start])
        invariant
            n == chars@.len(),
            start <= n,
            trim_start(chars@.skip(start as int)) == trim_start(chars@),
        decreases n - start,
    {
        assert(chars@.skip(start as int).skip(1) =~= chars@.skip(start + 1));
        start += 1;
    }
    let ghost body = chars@.skip(start as int);
    assert(body == trim_start(chars@));
    let mut end: usize = n;
    assert(chars@.subrange(start as int, n as int) =~= body);
    while start < end && is_whitespace(chars[end - 1])
        invariant
            n == chars@.len(),
            start <= end <= n,
            trim_end(chars@.subrange(start as int, end as int)) == trim_end(body),
        decreases end,
    {
        assert(chars@.subrange(start as int, end as int).drop_last() =~= chars@.subrange(
            start as int,
            end - 1,
        ));
        end -= 1;
    }
    let kept = vstd::slice::slice_subrange(chars.as_slice(), start, end);
    string_of(kept)
}

/// How long a text's first run without white space is.
pub open spec fn word_len(s: Seq<char>) -> nat
    decreases s.len(),
{
    if s.len() == 0 || white_space(s[0]) {
        0
    } else {
        1 + word_len(s.skip(1))
    }
}

/// A text's first word: what stands between the white space it starts with and
/// the next. Empty when there is no word.
pub open spec fn first_word(s: Seq<char>) -> Seq<char> {
    trim_start(s).take(word_len(trim_start(s)) as int)
}

/// What follows a text's first word.
pub open spec fn after_word(s: Seq<char>) -> Seq<char> {
    trim_start(s).skip(word_len(trim_start(s)) as int)
}

/// A word is no longer than the text it stands in.
pub proof fn lemma_word_len(s: Seq<char>)
    ensures
        word_len(s) <= s.len(),
    decreases s.len(),
{
    if s.len() > 0 && !white_space(s[0]) {
        lemma_word_len(s.skip(1));
    }
}

/// Part a text at the end of its first word.
pub fn split_word(chars: &[char]) -> (parts: (Vec<char>, Vec<char>))
    ensures
        parts.0@ == first_word(chars@),
        parts.1@ == after_word(chars@),
{
    let n: usize = chars.len();
    let mut start: usize = 0;
    assert(chars@.skip(0) =~= chars@);
    while start < n && is_whitespace(chars[start])
        invariant
            n == chars@.len(),
            start <= n,
            trim_start(chars@.skip(start as int)) == trim_start(chars@),
        decreases n - start,
    {
        assert(chars@.skip(start as int).skip(1) =~= chars@.skip(start + 1));
        start += 1;
    }
    let ghost body = chars@.skip(start as int);
    assert(body == trim_start(chars@));
    let mut end: usize = start;
    assert(body =~= chars@.skip(end as int));
    while end < n && !is_whitespace(chars[end])
        invariant
            n == chars@.len(),
            start <= end <= n,
            body == chars@.skip(start as int),
            word_len(body) == (end - start) + word_len(chars@.skip(end as int)),
        decreases n - end,
    {
        assert(chars@.skip(end as int).skip(1) =~= chars@.skip(end + 1));
        end += 1;
    }
    let mut word: Vec<char> = Vec::new();
    let mut rest: Vec<char> = Vec::new();
    word.extend_from_slice(vstd::slice::slice_subrange(chars, start, end));
    rest.extend_from_slice(vstd::slice::slice_subrange(chars, end, n));
    assert(word@ =~= first_word(chars@));
    assert(rest@ =~= after_word(chars@));
    (word, rest)
}

/// Whether a text holds nothing but white space.
pub open spec fn is_blank(s: Seq<char>) -> bool {
    trimmed(s).len() == 0
}

/// Whether a text holds nothing but white space.
pub fn blank(s: &str) -> (yes: bool)
    ensures
        yes == is_blank(s@),
{
    let t = trim(s);
    t.as_str().is_empty()
}

/// Whether one text comes before another, character by character.
pub open spec fn precedes(a: Seq<char>, b: Seq<char>) -> bool
    decreases a.len(),
{
    if b.len() == 0 {
        false
    } else if a.len() == 0 {
        true
    } else if a[0] != b[0] {
        (a[0] as int) < (b[0] as int)
    } else {
        precedes(a.skip(1), b.skip(1))
    }
}

/// The code point of a character.
fn code(c: char) -> (n: u32)
    ensures
        n == c as int,
{
    c as u32
}

/// Whether one text comes before another, character by character.
pub fn comes_before(a: &str, b: &str) -> (yes: bool)
    ensures
        yes == precedes(a@, b@),
{
    let x = chars_of(a);
    let y = chars_of(b);
    let mut i: usize = 0;
    assert(x@.skip(0) =~= x@);
    assert(y@.skip(0) =~= y@);
    loop
        invariant
            x@ == a@,
            y@ == b@,
            i <= x@.len(),
            i <= y@.len(),
            precedes(x@.skip(i as int), y@.skip(i as int)) == precedes(a@, b@),
        decreases x@.len() - i,
    {
        if i == y.len() {
            return false;
        }
        if i == x.len() {
            return true;
        }
        if x[i] != y[i] {
            let c: char = x[i];
            let d: char = y[i];
            return code(c) < code(d);
        }
        assert(x@.skip(i as int).skip(1) =~= x@.skip(i + 1));
        assert(y@.skip(i as int).skip(1) =~= y@.skip(i + 1));
        i += 1;
    }
}

/// No text comes before itself, nor before one that comes before it.
pub proof fn lemma_precedes_is_one_way(a: Seq<char>, b: Seq<char>)
    ensures
        !precedes(a, a),
        precedes(a, b) ==> !precedes(b, a),
    decreases a.len(),
{
    if a.len() > 0 {
        lemma_precedes_is_one_way(a.skip(1), b.skip(1));
    }
}

/// What comes before something comes before all that follows it, and a text
/// that comes neither before nor after another is that other.
pub proof fn lemma_precedes_is_an_order(a: Seq<char>, b: Seq<char>, c: Seq<char>)
    ensures
        precedes(a, b) && precedes(b, c) ==> precedes(a, c),
        !precedes(a, b) && !precedes(b, a) ==> a == b,
    decreases a.len(),
{
    if a.len() > 0 && b.len() > 0 {
        lemma_precedes_is_an_order(
            a.skip(1),
            b.skip(1),
            if c.len() > 0 {
                c.skip(1)
            } else {
                c
            },
        );
        if a[0] == b[0] && a.skip(1) == b.skip(1) {
            assert(a =~= seq![a[0]] + a.skip(1));
            assert(b =~= seq![b[0]] + b.skip(1));
        }
    } else if a.len() == 0 && b.len() == 0 {
        assert(a =~= b);
    }
}

/// Texts one after the other with a separator between them.
pub open spec fn joined(parts: Seq<Seq<char>>, separator: Seq<char>) -> Seq<char>
    decreases parts.len(),
{
    if parts.len() == 0 {
        Seq::empty()
    } else if parts.len() == 1 {
        parts[0]
    } else {
        joined(parts.drop_last(), separator) + separator + parts.last()
    }
}

/// The texts a list of strings holds.
pub open spec fn texts(parts: Seq<String>) -> Seq<Seq<char>> {
    Seq::new(parts.len(), |i: int| parts[i]@)
}

/// Append texts one after the other with a separator between them.
pub fn push_joined(out: &mut String, parts: &[String], separator: &str)
    ensures
        final(out)@ == old(out)@ + joined(texts(parts@), separator@),
{
    let mut i: usize = 0;
    assert(out@ =~= old(out)@ + joined(texts(parts@.take(0)), separator@));
    while i < parts.len()
        invariant
            i <= parts@.len(),
            out@ == old(out)@ + joined(texts(parts@.take(i as int)), separator@),
        decreases parts@.len() - i,
    {
        let ghost before = out@;
        if i > 0 {
            out.append(separator);
        }
        out.append(parts[i].as_str());
        proof {
            let next = texts(parts@.take(i + 1));
            assert(next.drop_last() =~= texts(parts@.take(i as int)));
            assert(next.last() == parts@[i as int]@);
            if i == 0 {
                assert(before =~= old(out)@);
                assert(out@ =~= old(out)@ + joined(next, separator@));
            } else {
                assert(out@ =~= old(out)@ + joined(next, separator@));
            }
        }
        i += 1;
    }
    assert(parts@.take(i as int) =~= parts@);
}

/// A text that starts and ends with anything but white space is its own
/// trimming.
pub proof fn lemma_trim_keeps(s: Seq<char>)
    requires
        s.len() > 0,
        !white_space(s[0]),
        !white_space(s.last()),
    ensures
        trimmed(s) == s,
{
}

/// A text that starts with anything but white space is not blank.
pub proof fn lemma_not_blank(s: Seq<char>)
    requires
        s.len() > 0,
        !white_space(s[0]),
    ensures
        !is_blank(s),
{
    lemma_trim_end_keeps_start(s);
}

proof fn lemma_trim_end_keeps_start(s: Seq<char>)
    requires
        s.len() > 0,
        !white_space(s[0]),
    ensures
        trim_end(s).len() > 0,
        trim_end(s)[0] == s[0],
        !white_space(trim_end(s).last()),
    decreases s.len(),
{
    if white_space(s.last()) {
        lemma_trim_end_keeps_start(s.drop_last());
    }
}

proof fn lemma_trim_start_drops_white(s: Seq<char>)
    ensures
        trim_start(s).len() > 0 ==> !white_space(trim_start(s)[0]),
    decreases s.len(),
{
    if s.len() > 0 && white_space(s[0]) {
        lemma_trim_start_drops_white(s.skip(1));
    }
}

/// Trimming twice is trimming once, and what is trimmed to something is not
/// blank.
pub proof fn lemma_trim_again(s: Seq<char>)
    ensures
        trimmed(trimmed(s)) == trimmed(s),
        trimmed(s).len() > 0 ==> !is_blank(trimmed(s)),
{
    lemma_trim_start_drops_white(s);
    if trim_start(s).len() > 0 {
        lemma_trim_end_keeps_start(trim_start(s));
        lemma_trim_keeps(trimmed(s));
    }
}

/// Different numbers read differently.
pub proof fn lemma_decimal_tells_numbers_apart(a: nat, b: nat)
    requires
        decimal(a) == decimal(b),
    ensures
        a == b,
    decreases a,
{
    lemma_decimal_is_not_empty(a);
    lemma_decimal_is_not_empty(b);
    let x = decimal(a);
    let y = decimal(b);
    assert(x.last() == digit(a % 10));
    assert(y.last() == digit(b % 10));
    assert(a % 10 == b % 10) by {
        assert(digit(a % 10) as int == 48 + a % 10);
        assert(digit(b % 10) as int == 48 + b % 10);
    }
    if a >= 10 && b >= 10 {
        assert(x.drop_last() =~= decimal(a / 10));
        assert(y.drop_last() =~= decimal(b / 10));
        lemma_decimal_tells_numbers_apart(a / 10, b / 10);
    } else if a >= 10 {
        lemma_decimal_is_not_empty(a / 10);
    } else if b >= 10 {
        lemma_decimal_is_not_empty(b / 10);
    }
}

proof fn lemma_decimal_is_not_empty(n: nat)
    ensures
        decimal(n).len() > 0,
        n >= 10 ==> decimal(n).len() > 1,
    decreases n,
{
    if n >= 10 {
        lemma_decimal_is_not_empty(n / 10);
    }
}

/// Trimming takes off all the white space on either side of a text and nothing
/// else.
pub proof fn law_trimming_takes_off_the_white_space_around(
    before: Seq<char>,
    body: Seq<char>,
    after: Seq<char>,
)
    requires
        forall|i: int| 0 <= i < before.len() ==> white_space(#[trigger] before[i]),
        forall|i: int| 0 <= i < after.len() ==> white_space(#[trigger] after[i]),
        body.len() > 0 ==> !white_space(body[0]) && !white_space(body.last()),
    ensures
        trimmed(before + body + after) == body,
        is_blank(before + body + after) <==> body.len() == 0,
{
    let s = before + body + after;
    if body.len() == 0 {
        assert forall|i: int| 0 <= i < s.len() implies white_space(#[trigger] s[i]) by {
            if i < before.len() {
                assert(s[i] == before[i]);
            } else {
                assert(s[i] == after[i - before.len()]);
            }
        }
        lemma_all_white(s);
        assert(body =~= Seq::<char>::empty());
    } else {
        assert(s =~= before + (body + after));
        lemma_white_in_front(before, body + after);
        lemma_white_behind(body, after);
    }
}

proof fn lemma_all_white(s: Seq<char>)
    requires
        forall|i: int| 0 <= i < s.len() ==> white_space(#[trigger] s[i]),
    ensures
        trim_start(s) == Seq::<char>::empty(),
    decreases s.len(),
{
    if s.len() > 0 {
        assert(white_space(s[0]));
        assert forall|i: int| 0 <= i < s.skip(1).len() implies white_space(
            #[trigger] s.skip(1)[i],
        ) by {
            assert(s.skip(1)[i] == s[i + 1]);
        }
        lemma_all_white(s.skip(1));
    } else {
        assert(s =~= Seq::<char>::empty());
    }
}

proof fn lemma_white_in_front(before: Seq<char>, rest: Seq<char>)
    requires
        forall|i: int| 0 <= i < before.len() ==> white_space(#[trigger] before[i]),
        rest.len() > 0,
        !white_space(rest[0]),
    ensures
        trim_start(before + rest) == rest,
    decreases before.len(),
{
    let s = before + rest;
    if before.len() == 0 {
        assert(s =~= rest);
    } else {
        assert(white_space(before[0]) && s[0] == before[0]);
        assert(s.skip(1) =~= before.skip(1) + rest);
        assert forall|i: int| 0 <= i < before.skip(1).len() implies white_space(
            #[trigger] before.skip(1)[i],
        ) by {
            assert(before.skip(1)[i] == before[i + 1]);
        }
        lemma_white_in_front(before.skip(1), rest);
    }
}

proof fn lemma_white_behind(body: Seq<char>, after: Seq<char>)
    requires
        forall|i: int| 0 <= i < after.len() ==> white_space(#[trigger] after[i]),
        body.len() > 0,
        !white_space(body.last()),
    ensures
        trim_end(body + after) == body,
    decreases after.len(),
{
    let s = body + after;
    if after.len() == 0 {
        assert(s =~= body);
    } else {
        assert(s.last() == after[after.len() - 1]);
        assert(s.drop_last() =~= body + after.drop_last());
        assert forall|i: int| 0 <= i < after.drop_last().len() implies white_space(
            #[trigger] after.drop_last()[i],
        ) by {
            assert(after.drop_last()[i] == after[i]);
        }
        lemma_white_behind(body, after.drop_last());
    }
}

/// The number that decimal digits make, the largest first.
pub open spec fn number(s: Seq<char>) -> int
    decreases s.len(),
{
    if s.len() == 0 {
        0
    } else {
        10 * number(s.drop_last()) + (s.last() as int - '0' as int)
    }
}

/// A number written in decimal reads as that number, in digits alone, and without
/// a zero in front of it.
pub proof fn law_decimal_reads_back(n: nat)
    ensures
        number(decimal(n)) == n,
        decimal(n).len() > 0,
        n > 0 ==> decimal(n)[0] != '0',
        forall|i: int| 0 <= i < decimal(n).len() ==> '0' <= #[trigger] decimal(n)[i] <= '9',
    decreases n,
{
    reveal_with_fuel(number, 2);
    if n < 10 {
        assert(decimal(n).last() == digit(n));
        assert(digit(n) as int == 48 + n);
    } else {
        law_decimal_reads_back(n / 10);
        assert(decimal(n).drop_last() =~= decimal(n / 10));
        assert(decimal(n).last() == digit(n % 10));
        assert(digit(n % 10) as int == 48 + n % 10);
        assert forall|i: int| 0 <= i < decimal(n).len() implies '0' <= #[trigger] decimal(n)[i]
            <= '9' by {
            if i < decimal(n / 10).len() {
                assert(decimal(n)[i] == decimal(n / 10)[i]);
            }
        }
        assert(decimal(n)[0] == decimal(n / 10)[0]);
    }
}

/// Of two texts that begin alike, the one with the smaller character where they
/// part comes first, and a text comes before every longer one that begins with
/// it.
pub proof fn law_texts_are_ordered_where_they_part(
    shared: Seq<char>,
    a: char,
    b: char,
    x: Seq<char>,
    y: Seq<char>,
)
    requires
        (a as int) < (b as int),
    ensures
        precedes(shared + seq![a] + x, shared + seq![b] + y),
        !precedes(shared + seq![b] + y, shared + seq![a] + x),
        precedes(shared, shared + seq![a] + x),
        !precedes(shared, shared),
    decreases shared.len(),
{
    let s = shared + seq![a] + x;
    let t = shared + seq![b] + y;
    if shared.len() == 0 {
        assert(s[0] == a && t[0] == b);
    } else {
        assert(s[0] == shared[0] && t[0] == shared[0]);
        assert(s.skip(1) =~= shared.skip(1) + seq![a] + x);
        assert(t.skip(1) =~= shared.skip(1) + seq![b] + y);
        law_texts_are_ordered_where_they_part(shared.skip(1), a, b, x, y);
    }
}

/// A byte is written as its two hexadecimal digits, the larger first, in small
/// letters.
pub proof fn law_a_byte_is_two_hex_digits(b: u8)
    ensures
        hex_byte(b).len() == 2,
        b / 16 < 10 ==> hex_byte(b)[0] as int == '0' as int + b / 16,
        b / 16 >= 10 ==> hex_byte(b)[0] as int == 'a' as int + b / 16 - 10,
        b % 16 < 10 ==> hex_byte(b)[1] as int == '0' as int + b % 16,
        b % 16 >= 10 ==> hex_byte(b)[1] as int == 'a' as int + b % 16 - 10,
{
}

/// The first word of a text is what stands between its white space, and what
/// follows it is left.
pub proof fn law_the_first_word_is_what_stands_between_white_space(
    before: Seq<char>,
    word: Seq<char>,
    rest: Seq<char>,
)
    requires
        forall|i: int| 0 <= i < before.len() ==> white_space(#[trigger] before[i]),
        word.len() > 0,
        forall|i: int| 0 <= i < word.len() ==> !white_space(#[trigger] word[i]),
        rest.len() > 0 ==> white_space(rest[0]),
    ensures
        first_word(before + word + rest) == word,
        after_word(before + word + rest) == rest,
{
    let s = before + word + rest;
    assert(s =~= before + (word + rest));
    assert((word + rest)[0] == word[0]);
    lemma_white_in_front(before, word + rest);
    lemma_word_ends(word, rest);
    assert((word + rest).take(word.len() as int) =~= word);
    assert((word + rest).skip(word.len() as int) =~= rest);
}

proof fn lemma_word_ends(word: Seq<char>, rest: Seq<char>)
    requires
        forall|i: int| 0 <= i < word.len() ==> !white_space(#[trigger] word[i]),
        rest.len() > 0 ==> white_space(rest[0]),
    ensures
        word_len(word + rest) == word.len(),
    decreases word.len(),
{
    let s = word + rest;
    if word.len() == 0 {
        assert(s =~= rest);
    } else {
        assert(s[0] == word[0] && !white_space(word[0]));
        assert(s.skip(1) =~= word.skip(1) + rest);
        assert forall|i: int| 0 <= i < word.skip(1).len() implies !white_space(
            #[trigger] word.skip(1)[i],
        ) by {
            assert(word.skip(1)[i] == word[i + 1]);
        }
        lemma_word_ends(word.skip(1), rest);
    }
}

} // verus!
