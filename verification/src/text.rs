//! Text as sequences of characters: cutting, searching, replacing, and the decimal notation.

use vstd::prelude::*;

verus! {

/// `String::push` of std appends one character to the end of the string.
pub assume_specification[ String::push ](s: &mut String, c: char)
    ensures
        final(s)@ == old(s)@.push(c),
;

/// What `char::is_whitespace` of std answers for a character.
pub uninterp spec fn white_space(c: char) -> bool;

/// `char::is_whitespace` of std: membership in the Unicode class White_Space. Within ASCII that
/// class holds the space and the characters from tab to carriage return.
#[verifier::external_body]
pub(crate) fn is_white_space(c: char) -> (r: bool)
    ensures
        r == white_space(c),
        (c as u32) < 128 ==> r == (c == ' ' || 9 <= c as u32 <= 13),
{
    c.is_whitespace()
}

/// What `char::is_uppercase` of std answers for a character.
pub uninterp spec fn upper_case(c: char) -> bool;

/// `char::is_uppercase` of std: the Unicode property Uppercase. Within ASCII it holds of `A` to
/// `Z` alone.
#[verifier::external_body]
pub(crate) fn is_upper_case(c: char) -> (r: bool)
    ensures
        r == upper_case(c),
        (c as u32) < 128 ==> r == ('A' as u32 <= c as u32 <= 'Z' as u32),
{
    c.is_uppercase()
}

/// What `char::is_lowercase` of std answers for a character.
pub uninterp spec fn lower_case(c: char) -> bool;

/// `char::is_lowercase` of std: the Unicode property Lowercase. Within ASCII it holds of `a` to
/// `z` alone.
#[verifier::external_body]
pub(crate) fn is_lower_case(c: char) -> (r: bool)
    ensures
        r == lower_case(c),
        (c as u32) < 128 ==> r == ('a' as u32 <= c as u32 <= 'z' as u32),
{
    c.is_lowercase()
}

/// What `char::is_numeric` of std answers for a character.
pub uninterp spec fn numeric(c: char) -> bool;

/// `char::is_numeric` of std: the Unicode general categories for numbers. Within ASCII they hold
/// the ten digits.
#[verifier::external_body]
pub(crate) fn is_numeric_char(c: char) -> (r: bool)
    ensures
        r == numeric(c),
        (c as u32) < 128 ==> r == ('0' as u32 <= c as u32 <= '9' as u32),
{
    c.is_numeric()
}

/// What `char::is_alphabetic` of std answers for a character.
pub uninterp spec fn alphabetic(c: char) -> bool;

/// `char::is_alphabetic` of std: the Unicode property Alphabetic. Within ASCII it holds of the
/// letters of both cases.
#[verifier::external_body]
pub(crate) fn is_alphabetic_char(c: char) -> (r: bool)
    ensures
        r == alphabetic(c),
        (c as u32) < 128 ==> r == ('a' as u32 <= c as u32 <= 'z' as u32 || 'A' as u32 <= c as u32
            <= 'Z' as u32),
{
    c.is_alphabetic()
}

/// The characters that `char::to_lowercase` of std yields for a character.
pub uninterp spec fn lowered(c: char) -> Seq<char>;

/// `char::to_lowercase` of std: the lower-case mapping of a character, one or more characters. An
/// ASCII capital maps to its small letter, every other ASCII character to itself.
#[verifier::external_body]
pub(crate) fn to_lower_case(c: char) -> (r: Vec<char>)
    ensures
        r@ == lowered(c),
        r@.len() >= 1,
        (c as u32) < 128 ==> r@ == seq![ascii_lowered(c)],
{
    c.to_lowercase().collect()
}

/// The small letter of an ASCII capital; every other character is left as it is.
pub open spec fn ascii_lowered(c: char) -> char {
    if 'A' as u32 <= c as u32 <= 'Z' as u32 {
        (c as u32 + 32) as char
    } else {
        c
    }
}

/// Whether a character is an ASCII capital.
pub open spec fn ascii_upper(c: char) -> bool {
    'A' as u32 <= c as u32 <= 'Z' as u32
}

/// Whether a character is a small ASCII letter.
pub open spec fn ascii_lower(c: char) -> bool {
    'a' as u32 <= c as u32 <= 'z' as u32
}

/// Whether a character is white space in ASCII.
pub open spec fn ascii_space(c: char) -> bool {
    c == ' ' || 9 <= c as u32 <= 13
}

/// What `str::to_lowercase` of std makes of a text.
pub uninterp spec fn lowered_text(s: Seq<char>) -> Seq<char>;

/// Whether a text holds ASCII characters only.
pub open spec fn is_ascii(s: Seq<char>) -> bool {
    forall|i: int| 0 <= i < s.len() ==> (#[trigger] s[i] as u32) < 128
}

/// `str::to_lowercase` of std: a text in lower case. In a text of ASCII characters each capital
/// becomes its small letter.
#[verifier::external_body]
pub(crate) fn to_lower_text(s: &str) -> (r: String)
    ensures
        r@ == lowered_text(s@),
        is_ascii(s@) ==> r@ == s@.map_values(|c: char| ascii_lowered(c)),
{
    s.to_lowercase()
}

/// The characters of a string, in order.
pub fn chars_of(s: &str) -> (r: Vec<char>)
    ensures
        r@ == s@,
{
    let mut out: Vec<char> = Vec::new();
    for c in it: s.chars()
        invariant
            it.seq() == s@,
            out@ == s@.take(it.index() as int),
    {
        proof {
            assert(s@.take(it.index() as int).push(s@[it.index() as int]) =~= s@.take(
                it.index() + 1,
            ));
        }
        out.push(c);
    }
    proof {
        assert(s@.take(s@.len() as int) =~= s@);
    }
    out
}

/// The string made of the characters at the positions `from..to`.
pub fn string_of(chars: &Vec<char>, from: usize, to: usize) -> (r: String)
    requires
        from <= to <= chars@.len(),
    ensures
        r@ == chars@.subrange(from as int, to as int),
{
    let mut out = String::new();
    let mut i: usize = from;
    while i < to
        invariant
            from <= i <= to <= chars@.len(),
            out@ == chars@.subrange(from as int, i as int),
        decreases to - i,
    {
        out.push(chars[i]);
        i = i + 1;
        proof {
            assert(chars@.subrange(from as int, i as int) =~= chars@.subrange(
                from as int,
                i - 1,
            ).push(chars@[i - 1]));
        }
    }
    out
}

/// The characters of a string, if there is one.
pub open spec fn optional_text(s: Option<String>) -> Option<Seq<char>> {
    match s {
        Some(t) => Some(t@),
        None => None,
    }
}

/// The characters of the string that was made, or of the reason why none was.
pub open spec fn text_or_reason(r: Result<String, String>) -> Result<Seq<char>, Seq<char>> {
    match r {
        Ok(t) => Ok(t@),
        Err(reason) => Err(reason@),
    }
}

/// One text after another.
pub fn concat(first: &str, second: &str) -> (r: String)
    ensures
        r@ == first@ + second@,
{
    let mut out = first.to_owned();
    out.append(second);
    out
}

/// Whether two texts hold the same characters.
pub fn same(a: &str, b: &str) -> (r: bool)
    ensures
        r == (a@ == b@),
{
    a.to_owned() == b.to_owned()
}

// ---------------------------------------------------------------------------------------------
// Decimal notation
// ---------------------------------------------------------------------------------------------

/// The character of one decimal digit.
pub open spec fn digit_char(d: nat) -> char {
    ('0' as u32 + d) as char
}

/// A natural number in decimal, without leading zeros.
pub open spec fn decimal(n: nat) -> Seq<char>
    decreases n,
{
    if n < 10 {
        seq![digit_char(n)]
    } else {
        decimal(n / 10).push(digit_char(n % 10))
    }
}

/// An integer in decimal, with a leading minus sign where it is negative.
pub open spec fn decimal_int(i: int) -> Seq<char> {
    if i < 0 {
        seq!['-'] + decimal((-i) as nat)
    } else {
        decimal(i as nat)
    }
}

fn digit(d: u128) -> (r: char)
    requires
        d < 10,
    ensures
        r == digit_char(d as nat),
{
    match d {
        0 => '0',
        1 => '1',
        2 => '2',
        3 => '3',
        4 => '4',
        5 => '5',
        6 => '6',
        7 => '7',
        8 => '8',
        _ => '9',
    }
}

/// The decimal notation of an unsigned number.
pub fn u64_text(n: u64) -> (r: String)
    ensures
        r@ == decimal(n as nat),
{
    u128_text(n as u128)
}

/// The decimal notation of an unsigned number of up to 128 bits.
pub fn u128_text(n: u128) -> (r: String)
    ensures
        r@ == decimal(n as nat),
    decreases n,
{
    if n < 10 {
        let mut out = String::new();
        out.push(digit(n));
        proof {
            assert(out@ =~= seq![digit_char(n as nat)]);
        }
        out
    } else {
        let mut out = u128_text(n / 10);
        out.push(digit(n % 10));
        out
    }
}

/// The decimal notation of a signed number.
pub fn i64_text(n: i64) -> (r: String)
    ensures
        r@ == decimal_int(n as int),
{
    if n < 0 {
        let magnitude: u64 = (-(n as i128)) as u64;
        let mut out = String::new();
        out.push('-');
        let digits = u64_text(magnitude);
        out.append(digits.as_str());
        proof {
            assert(out@ =~= seq!['-'] + decimal((-n) as nat));
        }
        out
    } else {
        u64_text(n as u64)
    }
}

/// Whether a character is an ASCII digit.
pub open spec fn is_digit(c: char) -> bool {
    '0' as u32 <= c as u32 <= '9' as u32
}

/// The number that a run of digits denotes.
pub open spec fn digits_value(s: Seq<char>) -> nat
    decreases s.len(),
{
    if s.len() == 0 {
        0
    } else {
        digits_value(s.drop_last()) * 10 + (s.last() as u32 - '0' as u32) as nat
    }
}

/// The digits that remain once an optional leading plus sign is taken off.
pub open spec fn unsigned_digits(s: Seq<char>) -> Seq<char> {
    if s.len() > 0 && s[0] == '+' {
        s.skip(1)
    } else {
        s
    }
}

/// The unsigned number that a text denotes: an optional plus sign and at least one digit, and
/// nothing else.
pub open spec fn unsigned_value(s: Seq<char>) -> Option<nat> {
    let digits = unsigned_digits(s);
    if digits.len() > 0 && forall|i: int| 0 <= i < digits.len() ==> is_digit(#[trigger] digits[i]) {
        Some(digits_value(digits))
    } else {
        None
    }
}

/// Reads an unsigned number in decimal notation.
pub fn parse_usize(s: &str) -> (r: Option<usize>)
    ensures
        match unsigned_value(s@) {
            Some(n) => if n <= usize::MAX {
                r == Some(n as usize)
            } else {
                r is None
            },
            None => r is None,
        },
{
    let chars = chars_of(s);
    let n: usize = chars.len();
    let start: usize = if n > 0 && chars[0] == '+' {
        1
    } else {
        0
    };
    let ghost digits = unsigned_digits(s@);
    proof {
        assert(digits =~= s@.skip(start as int));
    }
    if start == n {
        return None;
    }
    let mut value: usize = 0;
    let mut too_large: bool = false;
    let mut i: usize = start;
    while i < n
        invariant
            chars@ == s@,
            n == chars@.len(),
            start <= i <= n,
            digits == s@.skip(start as int),
            digits == unsigned_digits(s@),
            digits.len() > 0,
            forall|j: int| 0 <= j < i - start ==> is_digit(#[trigger] digits[j]),
            !too_large ==> value == digits_value(digits.take(i - start)),
            too_large ==> digits_value(digits.take(i - start)) > usize::MAX,
        decreases n - i,
    {
        let c = chars[i];
        proof {
            assert(digits[i - start] == c);
            assert(digits.take(i - start + 1).drop_last() =~= digits.take(i - start));
        }
        let code: u32 = c as u32;
        if code < 48 || code > 57 {
            return None;
        }
        let d: usize = (code - 48) as usize;
        if !too_large {
            match value.checked_mul(10) {
                Some(scaled) => {
                    match scaled.checked_add(d) {
                        Some(sum) => {
                            value = sum;
                        },
                        None => {
                            too_large = true;
                        },
                    }
                },
                None => {
                    too_large = true;
                },
            }
        }
        i = i + 1;
    }
    proof {
        assert(digits.take(n - start) =~= digits);
    }
    if too_large {
        None
    } else {
        Some(value)
    }
}

// ---------------------------------------------------------------------------------------------
// Cutting and joining
// ---------------------------------------------------------------------------------------------

/// The pieces of a text between the separators. There is always one piece more than there are
/// separators.
pub open spec fn split(s: Seq<char>, sep: char) -> Seq<Seq<char>>
    decreases s.len(),
{
    if s.len() == 0 {
        seq![Seq::<char>::empty()]
    } else {
        let before = split(s.drop_last(), sep);
        if s.last() == sep {
            before.push(Seq::<char>::empty())
        } else {
            before.drop_last().push(before.last().push(s.last()))
        }
    }
}

/// The pieces put back together with the separator between them.
pub open spec fn join(pieces: Seq<Seq<char>>, sep: Seq<char>) -> Seq<char>
    decreases pieces.len(),
{
    if pieces.len() == 0 {
        Seq::empty()
    } else if pieces.len() == 1 {
        pieces[0]
    } else {
        join(pieces.drop_last(), sep) + sep + pieces.last()
    }
}

/// The texts of a list of strings.
pub open spec fn texts(v: Seq<String>) -> Seq<Seq<char>> {
    Seq::new(v.len(), |i: int| v[i]@)
}

/// Cutting a text leaves no separator in a piece, and the pieces joined by the separator are the
/// text again.
pub proof fn split_joins_back(s: Seq<char>, sep: char)
    ensures
        split(s, sep).len() >= 1,
        join(split(s, sep), seq![sep]) == s,
        forall|i: int, j: int|
            0 <= i < split(s, sep).len() && 0 <= j < split(s, sep)[i].len() ==> #[trigger] split(
                s,
                sep,
            )[i][j] != sep,
    decreases s.len(),
{
    if s.len() > 0 {
        let rest = s.drop_last();
        let before = split(rest, sep);
        split_joins_back(rest, sep);
        let all = split(s, sep);
        if s.last() == sep {
            assert(all.drop_last() =~= before);
            assert(join(all, seq![sep]) =~= s);
        } else {
            assert(all.drop_last() =~= before.drop_last());
            assert(join(all, seq![sep]) =~= join(before, seq![sep]).push(s.last()));
            assert(s =~= rest.push(s.last()));
        }
    }
}

/// A piece of a text holds no character that the text does not hold.
pub proof fn pieces_hold_no_more(s: Seq<char>, sep: char, i: int, c: char)
    requires
        0 <= i < split(s, sep).len(),
        !s.contains(c),
    ensures
        !split(s, sep)[i].contains(c),
    decreases s.len(),
{
    if s.len() > 0 {
        let rest = s.drop_last();
        let before = split(rest, sep);
        split_joins_back(rest, sep);
        assert forall|j: int| 0 <= j < rest.len() implies rest[j] != c by {
            assert(s.contains(s[j]));
        }
        assert(s.contains(s[s.len() - 1]));
        if i < before.len() {
            pieces_hold_no_more(rest, sep, i, c);
            assert forall|j: int| 0 <= j < split(s, sep)[i].len() implies split(s, sep)[i][j] != c by {
                if j < before[i].len() {
                    assert(before[i].contains(before[i][j]));
                }
            }
        }
    }
}

proof fn lemma_split_append(s: Seq<char>, t: Seq<char>, sep: char)
    requires
        !t.contains(sep),
    ensures
        split(s + t, sep) == split(s, sep).drop_last().push(split(s, sep).last() + t),
    decreases t.len(),
{
    split_joins_back(s, sep);
    let before = split(s, sep);
    if t.len() == 0 {
        assert(s + t =~= s);
        assert(before.last() + t =~= before.last());
        assert(before.drop_last().push(before.last()) =~= before);
    } else {
        let front = t.drop_last();
        assert forall|i: int| 0 <= i < front.len() implies front[i] != sep by {
            assert(t.contains(t[i]));
        }
        lemma_split_append(s, front, sep);
        assert((s + t).drop_last() =~= s + front);
        assert(t.contains(t[t.len() - 1]));
        let after = before.drop_last().push(before.last() + front);
        assert(after.drop_last() =~= before.drop_last());
        assert((before.last() + front).push(t.last()) =~= before.last() + t);
    }
}

/// Pieces that hold no separator, once joined by it, are the pieces that the text is cut into.
pub proof fn join_splits_back(pieces: Seq<Seq<char>>, sep: char)
    requires
        pieces.len() >= 1,
        forall|i: int| 0 <= i < pieces.len() ==> !(#[trigger] pieces[i]).contains(sep),
    ensures
        split(join(pieces, seq![sep]), sep) == pieces,
    decreases pieces.len(),
{
    let last = pieces.last();
    assert(!pieces[pieces.len() - 1].contains(sep));
    if pieces.len() == 1 {
        let nothing = Seq::<char>::empty();
        lemma_split_append(nothing, last, sep);
        assert(nothing + last =~= last);
        assert(split(nothing, sep) =~= seq![nothing]);
        assert(split(last, sep) =~= pieces);
    } else {
        let front = pieces.drop_last();
        assert forall|i: int| 0 <= i < front.len() implies !(#[trigger] front[i]).contains(sep) by {
            assert(front[i] == pieces[i]);
        }
        join_splits_back(front, sep);
        let joined = join(front, seq![sep]);
        let ended = joined.push(sep);
        assert(ended.drop_last() =~= joined);
        assert(split(ended, sep) == front.push(Seq::<char>::empty()));
        lemma_split_append(ended, last, sep);
        assert(joined + seq![sep] + last =~= ended + last);
        assert(front.push(Seq::<char>::empty()).drop_last() =~= front);
        assert(Seq::<char>::empty() + last =~= last);
        assert(front.push(last) =~= pieces);
    }
}

/// Cuts a text at every separator.
pub fn split_text(s: &str, sep: char) -> (r: Vec<String>)
    ensures
        texts(r@) == split(s@, sep),
{
    let mut pieces: Vec<String> = Vec::new();
    let mut current = String::new();
    proof {
        assert(texts(pieces@).push(current@) =~= split(s@.take(0), sep));
    }
    for c in it: s.chars()
        invariant
            it.seq() == s@,
            texts(pieces@).push(current@) == split(s@.take(it.index() as int), sep),
    {
        let ghost before = s@.take(it.index() as int);
        let ghost after = s@.take(it.index() + 1);
        let ghost old_pieces = pieces@;
        let ghost old_current = current@;
        proof {
            assert(after.drop_last() =~= before);
            assert(after.last() == c);
            assert(texts(old_pieces).push(old_current).drop_last() =~= texts(old_pieces));
        }
        if c == sep {
            pieces.push(current);
            current = String::new();
            proof {
                assert(texts(pieces@) =~= texts(old_pieces).push(old_current));
            }
        } else {
            current.push(c);
        }
    }
    proof {
        assert(s@.take(s@.len() as int) =~= s@);
    }
    let ghost old_pieces = pieces@;
    let ghost old_current = current@;
    pieces.push(current);
    proof {
        assert(texts(pieces@) =~= texts(old_pieces).push(old_current));
    }
    pieces
}

/// The pieces that hold at least one character, in order.
pub open spec fn non_empty(pieces: Seq<Seq<char>>) -> Seq<Seq<char>>
    decreases pieces.len(),
{
    if pieces.len() == 0 {
        Seq::empty()
    } else {
        let before = non_empty(pieces.drop_last());
        if pieces.last().len() > 0 {
            before.push(pieces.last())
        } else {
            before
        }
    }
}

/// Where every piece holds a character, none is left out.
pub proof fn non_empty_keeps_all(pieces: Seq<Seq<char>>)
    requires
        forall|i: int| 0 <= i < pieces.len() ==> (#[trigger] pieces[i]).len() > 0,
    ensures
        non_empty(pieces) == pieces,
        non_empty(seq![Seq::<char>::empty()] + pieces) == pieces,
    decreases pieces.len(),
{
    let led = seq![Seq::<char>::empty()] + pieces;
    if pieces.len() == 0 {
        reveal_with_fuel(non_empty, 2);
        assert(led.drop_last() =~= pieces);
    } else {
        let front = pieces.drop_last();
        assert forall|i: int| 0 <= i < front.len() implies (#[trigger] front[i]).len() > 0 by {
            assert(front[i] == pieces[i]);
        }
        non_empty_keeps_all(front);
        assert(pieces[pieces.len() - 1].len() > 0);
        assert(led.drop_last() =~= seq![Seq::<char>::empty()] + front);
        assert(front.push(pieces.last()) =~= pieces);
    }
}

/// The pieces of a text between the separators, without the empty ones.
pub fn split_non_empty(s: &str, sep: char) -> (r: Vec<String>)
    ensures
        texts(r@) == non_empty(split(s@, sep)),
{
    let pieces = split_text(s, sep);
    let mut out: Vec<String> = Vec::new();
    let mut i: usize = 0;
    while i < pieces.len()
        invariant
            i <= pieces@.len(),
            texts(pieces@) == split(s@, sep),
            texts(out@) == non_empty(texts(pieces@).take(i as int)),
        decreases pieces@.len() - i,
    {
        let ghost old_out = out@;
        let ghost upto = texts(pieces@).take(i + 1);
        proof {
            assert(upto.drop_last() =~= texts(pieces@).take(i as int));
            assert(upto.last() == pieces@[i as int]@);
        }
        if !pieces[i].as_str().is_empty() {
            out.push(pieces[i].clone());
            proof {
                assert(texts(out@) =~= texts(old_out).push(pieces@[i as int]@));
            }
        }
        i = i + 1;
    }
    proof {
        assert(texts(pieces@).take(pieces@.len() as int) =~= texts(pieces@));
    }
    out
}

/// Joins strings with a separator between them.
pub fn join_text(pieces: &Vec<String>, sep: &str) -> (r: String)
    ensures
        r@ == join(texts(pieces@), sep@),
{
    let mut out = String::new();
    let mut i: usize = 0;
    while i < pieces.len()
        invariant
            i <= pieces@.len(),
            out@ == join(texts(pieces@).take(i as int), sep@),
        decreases pieces@.len() - i,
    {
        let ghost upto = texts(pieces@).take(i + 1);
        proof {
            assert(upto.drop_last() =~= texts(pieces@).take(i as int));
            assert(upto.last() == pieces@[i as int]@);
        }
        if i > 0 {
            out.append(sep);
        }
        out.append(pieces[i].as_str());
        i = i + 1;
        proof {
            if i == 1 {
                assert(out@ =~= upto[0]);
            }
        }
    }
    proof {
        assert(texts(pieces@).take(pieces@.len() as int) =~= texts(pieces@));
    }
    out
}

// ---------------------------------------------------------------------------------------------
// Searching
// ---------------------------------------------------------------------------------------------

/// Whether a text begins with another one.
pub open spec fn begins_with(s: Seq<char>, prefix: Seq<char>) -> bool {
    prefix.len() <= s.len() && s.take(prefix.len() as int) == prefix
}

/// Whether a text holds another one somewhere.
pub open spec fn holds(s: Seq<char>, part: Seq<char>) -> bool {
    exists|i: int| 0 <= i <= s.len() && begins_with(#[trigger] s.skip(i), part)
}

fn matches_at(s: &Vec<char>, part: &Vec<char>, at: usize) -> (r: bool)
    requires
        at <= s@.len(),
    ensures
        r == begins_with(s@.skip(at as int), part@),
{
    let n: usize = s.len();
    if part.len() > n - at {
        return false;
    }
    let mut i: usize = 0;
    while i < part.len()
        invariant
            n == s@.len(),
            at <= n,
            part@.len() <= n - at,
            i <= part@.len(),
            forall|j: int| 0 <= j < i ==> s@[at + j] == part@[j],
        decreases part@.len() - i,
    {
        if s[at + i] != part[i] {
            proof {
                assert(s@.skip(at as int).take(part@.len() as int)[i as int] == s@[at + i]);
            }
            return false;
        }
        i = i + 1;
    }
    proof {
        assert(s@.skip(at as int).take(part@.len() as int) =~= part@);
    }
    true
}

/// Whether the text begins with the prefix.
pub fn has_prefix(s: &str, prefix: &str) -> (r: bool)
    ensures
        r == begins_with(s@, prefix@),
{
    let chars = chars_of(s);
    let part = chars_of(prefix);
    proof {
        assert(s@.skip(0) =~= s@);
    }
    matches_at(&chars, &part, 0)
}

/// Whether the text holds the part somewhere.
pub fn has_part(s: &str, part: &str) -> (r: bool)
    ensures
        r == holds(s@, part@),
{
    let chars = chars_of(s);
    let wanted = chars_of(part);
    let mut i: usize = 0;
    while i <= chars.len()
        invariant
            chars@ == s@,
            wanted@ == part@,
            i <= chars@.len() + 1,
            forall|j: int| 0 <= j < i ==> !begins_with(#[trigger] s@.skip(j), part@),
        decreases chars@.len() + 1 - i,
    {
        if matches_at(&chars, &wanted, i) {
            return true;
        }
        if i == chars.len() {
            return false;
        }
        i = i + 1;
    }
    false
}

/// Whether the text holds the character.
pub fn has_char(s: &str, wanted: char) -> (r: bool)
    ensures
        r == s@.contains(wanted),
{
    let chars = chars_of(s);
    let mut i: usize = 0;
    while i < chars.len()
        invariant
            chars@ == s@,
            i <= chars@.len(),
            forall|j: int| 0 <= j < i ==> s@[j] != wanted,
        decreases chars@.len() - i,
    {
        if chars[i] == wanted {
            return true;
        }
        i = i + 1;
    }
    false
}

/// The text that remains once the first `n` characters are taken off.
pub fn after(s: &str, n: usize) -> (r: String)
    requires
        n <= s@.len(),
    ensures
        r@ == s@.skip(n as int),
{
    let chars = chars_of(s);
    string_of(&chars, n, chars.len())
}

/// The text before and after the first separator, if there is one.
pub open spec fn cut(s: Seq<char>, sep: char) -> Option<(Seq<char>, Seq<char>)>
    decreases s.len(),
{
    if s.len() == 0 {
        None
    } else if s[0] == sep {
        Some((Seq::empty(), s.skip(1)))
    } else {
        match cut(s.skip(1), sep) {
            None => None,
            Some((head, tail)) => Some((seq![s[0]] + head, tail)),
        }
    }
}

/// What `cut` finds is the first separator: nothing before it is one, and head, separator and
/// tail are the text again. It finds nothing exactly where the text holds no separator.
pub proof fn cut_is_first(s: Seq<char>, sep: char)
    ensures
        match cut(s, sep) {
            Some((head, tail)) => s == head.push(sep) + tail && !head.contains(sep),
            None => !s.contains(sep),
        },
    decreases s.len(),
{
    if s.len() > 0 && s[0] != sep {
        cut_is_first(s.skip(1), sep);
        match cut(s.skip(1), sep) {
            Some((head, tail)) => {
                let whole = seq![s[0]] + head;
                assert(s =~= seq![s[0]] + s.skip(1));
                assert(s =~= whole.push(sep) + tail);
                assert forall|i: int| 0 <= i < whole.len() implies whole[i] != sep by {
                    if i > 0 {
                        assert(whole[i] == head[i - 1]);
                        assert(head.contains(head[i - 1]));
                    }
                }
            },
            None => {
                assert forall|i: int| 0 <= i < s.len() implies s[i] != sep by {
                    if i > 0 {
                        assert(s.skip(1)[i - 1] == s[i]);
                        assert(s.skip(1).contains(s[i]));
                    }
                }
            },
        }
    } else if s.len() > 0 {
        assert(s =~= Seq::<char>::empty().push(sep) + s.skip(1));
    }
}

/// A head without the separator, the separator and a tail are cut into head and tail.
pub proof fn cut_of_pair(head: Seq<char>, tail: Seq<char>, sep: char)
    requires
        !head.contains(sep),
    ensures
        cut(head.push(sep) + tail, sep) == Some((head, tail)),
{
    let s = head.push(sep) + tail;
    assert forall|j: int| 0 <= j < head.len() implies s[j] != sep by {
        assert(head.contains(head[j]));
    }
    lemma_cut_at(s, sep, head.len() as int);
    assert(s.take(head.len() as int) =~= head);
    assert(s.skip(head.len() as int + 1) =~= tail);
}

proof fn lemma_cut_at(s: Seq<char>, sep: char, at: int)
    requires
        0 <= at < s.len(),
        s[at] == sep,
        forall|j: int| 0 <= j < at ==> s[j] != sep,
    ensures
        cut(s, sep) == Some((s.take(at), s.skip(at + 1))),
    decreases at,
{
    if at == 0 {
        assert(s.take(0) =~= Seq::<char>::empty());
    } else {
        lemma_cut_at(s.skip(1), sep, at - 1);
        assert(seq![s[0]] + s.skip(1).take(at - 1) =~= s.take(at));
        assert(s.skip(1).skip(at) =~= s.skip(at + 1));
    }
}

/// Cuts a text at the first separator.
pub fn cut_text(s: &str, sep: char) -> (r: Option<(String, String)>)
    ensures
        match (r, cut(s@, sep)) {
            (Some(found), Some(expected)) => found.0@ == expected.0 && found.1@ == expected.1,
            (None, None) => true,
            _ => false,
        },
{
    let chars = chars_of(s);
    let mut i: usize = 0;
    while i < chars.len()
        invariant
            chars@ == s@,
            i <= chars@.len(),
            forall|j: int| 0 <= j < i ==> s@[j] != sep,
        decreases chars@.len() - i,
    {
        if chars[i] == sep {
            proof {
                lemma_cut_at(s@, sep, i as int);
                assert(s@.subrange(0, i as int) =~= s@.take(i as int));
                assert(s@.subrange(i + 1, s@.len() as int) =~= s@.skip(i + 1));
            }
            return Some((string_of(&chars, 0, i), string_of(&chars, i + 1, chars.len())));
        }
        i = i + 1;
    }
    proof {
        cut_is_first(s@, sep);
        match cut(s@, sep) {
            Some((head, tail)) => {
                assert(s@[head.len() as int] == sep);
            },
            None => {},
        }
    }
    None
}

// ---------------------------------------------------------------------------------------------
// Trimming and replacing
// ---------------------------------------------------------------------------------------------

/// The text without leading white space.
pub open spec fn trim_start(s: Seq<char>) -> Seq<char>
    decreases s.len(),
{
    if s.len() > 0 && white_space(s[0]) {
        trim_start(s.skip(1))
    } else {
        s
    }
}

/// The text without trailing white space.
pub open spec fn trim_end(s: Seq<char>) -> Seq<char>
    decreases s.len(),
{
    if s.len() > 0 && white_space(s.last()) {
        trim_end(s.drop_last())
    } else {
        s
    }
}

/// The text without white space at either end.
pub open spec fn trim(s: Seq<char>) -> Seq<char> {
    trim_end(trim_start(s))
}

/// The text without leading white space of ASCII.
pub open spec fn ascii_trim_start(s: Seq<char>) -> Seq<char>
    decreases s.len(),
{
    if s.len() > 0 && ascii_space(s[0]) {
        ascii_trim_start(s.skip(1))
    } else {
        s
    }
}

/// The text without trailing white space of ASCII.
pub open spec fn ascii_trim_end(s: Seq<char>) -> Seq<char>
    decreases s.len(),
{
    if s.len() > 0 && ascii_space(s.last()) {
        ascii_trim_end(s.drop_last())
    } else {
        s
    }
}

/// The text without white space of ASCII at either end.
pub open spec fn ascii_trim(s: Seq<char>) -> Seq<char> {
    ascii_trim_end(ascii_trim_start(s))
}

/// Takes the white space off both ends.
pub fn trim_text(s: &str) -> (r: String)
    ensures
        r@ == trim(s@),
        is_ascii(s@) ==> r@ == ascii_trim(s@),
{
    let ghost ascii = is_ascii(s@);
    let chars = chars_of(s);
    let mut from: usize = 0;
    proof {
        assert(s@.skip(0) =~= s@);
    }
    while from < chars.len() && is_white_space(chars[from])
        invariant
            chars@ == s@,
            from <= chars@.len(),
            ascii == is_ascii(s@),
            trim_start(s@) == trim_start(s@.skip(from as int)),
            ascii ==> ascii_trim_start(s@) == ascii_trim_start(s@.skip(from as int)),
        ensures
            from < chars@.len() ==> !white_space(s@[from as int]),
            from < chars@.len() && ascii ==> !ascii_space(s@[from as int]),
        decreases chars@.len() - from,
    {
        proof {
            assert(s@.skip(from as int).skip(1) =~= s@.skip(from + 1));
        }
        from = from + 1;
    }
    proof {
        assert(trim_start(s@) == s@.skip(from as int));
        assert(ascii ==> ascii_trim_start(s@) == s@.skip(from as int));
        assert(s@.skip(from as int) =~= s@.subrange(from as int, s@.len() as int));
    }
    let mut to: usize = chars.len();
    while to > from && is_white_space(chars[to - 1])
        invariant
            chars@ == s@,
            from <= to <= chars@.len(),
            ascii == is_ascii(s@),
            trim(s@) == trim_end(s@.subrange(from as int, to as int)),
            ascii ==> ascii_trim(s@) == ascii_trim_end(s@.subrange(from as int, to as int)),
        ensures
            to > from ==> !white_space(s@[to - 1]),
            to > from && ascii ==> !ascii_space(s@[to - 1]),
        decreases to,
    {
        proof {
            assert(s@.subrange(from as int, to as int).drop_last() =~= s@.subrange(
                from as int,
                to - 1,
            ));
        }
        to = to - 1;
    }
    string_of(&chars, from, to)
}

/// The text with every occurrence of `part`, found from the left, replaced.
pub open spec fn replaced(s: Seq<char>, part: Seq<char>, by: Seq<char>) -> Seq<char>
    decreases s.len(),
{
    if part.len() == 0 || s.len() < part.len() {
        s
    } else if begins_with(s, part) {
        by + replaced(s.skip(part.len() as int), part, by)
    } else {
        seq![s[0]] + replaced(s.skip(1), part, by)
    }
}

/// Replaces every occurrence of a part of the text.
pub fn replace_text(s: &str, part: &str, by: &str) -> (r: String)
    requires
        part@.len() > 0,
    ensures
        r@ == replaced(s@, part@, by@),
{
    let chars = chars_of(s);
    let wanted = chars_of(part);
    let mut out = String::new();
    let mut i: usize = 0;
    proof {
        assert(s@.skip(0) =~= s@);
        assert(out@ + replaced(s@.skip(0), part@, by@) =~= replaced(s@, part@, by@));
    }
    while i < chars.len()
        invariant
            chars@ == s@,
            wanted@ == part@,
            part@.len() > 0,
            i <= chars@.len(),
            out@ + replaced(s@.skip(i as int), part@, by@) == replaced(s@, part@, by@),
        decreases chars@.len() - i,
    {
        let ghost before = out@;
        let ghost rest = s@.skip(i as int);
        if matches_at(&chars, &wanted, i) {
            out.append(by);
            i = i + wanted.len();
            proof {
                assert(rest.skip(part@.len() as int) =~= s@.skip(i as int));
                assert(before + (by@ + replaced(s@.skip(i as int), part@, by@)) =~= (before + by@)
                    + replaced(s@.skip(i as int), part@, by@));
            }
        } else {
            out.push(chars[i]);
            proof {
                assert(rest.skip(1) =~= s@.skip(i + 1));
                if rest.len() < part@.len() {
                    assert(replaced(s@.skip(i + 1), part@, by@) == s@.skip(i + 1));
                    assert(out@ + s@.skip(i + 1) =~= before + rest);
                } else {
                    assert(before + (seq![rest[0]] + replaced(s@.skip(i + 1), part@, by@))
                        =~= out@ + replaced(s@.skip(i + 1), part@, by@));
                }
            }
            i = i + 1;
        }
    }
    proof {
        assert(s@.skip(i as int) =~= Seq::<char>::empty());
        assert(out@ + Seq::<char>::empty() =~= out@);
    }
    out
}

// ---------------------------------------------------------------------------------------------
// What these come to
// ---------------------------------------------------------------------------------------------

/// A text with a separator in it is cut into the pieces before the separator and those after it; a
/// text without one is a single piece.
pub proof fn a_separator_cuts(a: Seq<char>, b: Seq<char>, sep: char)
    ensures
        split(a.push(sep) + b, sep) == split(a, sep) + split(b, sep),
        !a.contains(sep) ==> split(a, sep) == seq![a],
    decreases b.len(),
{
    if !a.contains(sep) {
        let one = seq![a];
        assert(join(one, seq![sep]) == a);
        join_splits_back(one, sep);
    }
    let whole = a.push(sep) + b;
    split_joins_back(a, sep);
    if b.len() == 0 {
        assert(whole =~= a.push(sep));
        assert(whole.drop_last() =~= a);
        assert(split(whole, sep) =~= split(a, sep) + split(b, sep));
    } else {
        let front = b.drop_last();
        a_separator_cuts(a, front, sep);
        split_joins_back(front, sep);
        assert(whole.drop_last() =~= a.push(sep) + front);
        assert(whole.last() == b.last());
        let before = split(a, sep) + split(front, sep);
        assert(before.last() == split(front, sep).last());
        assert(before.drop_last() =~= split(a, sep) + split(front, sep).drop_last());
        assert(split(whole, sep) =~= split(a, sep) + split(b, sep));
    }
}

/// Leaving out the empty pieces of two lists after one another leaves out those of each.
pub proof fn non_empty_of_two(a: Seq<Seq<char>>, b: Seq<Seq<char>>)
    ensures
        non_empty(a + b) == non_empty(a) + non_empty(b),
    decreases b.len(),
{
    if b.len() == 0 {
        assert(a + b =~= a);
        assert(non_empty(a) + non_empty(b) =~= non_empty(a));
    } else {
        non_empty_of_two(a, b.drop_last());
        assert((a + b).drop_last() =~= a + b.drop_last());
        assert((a + b).last() == b.last());
        assert(non_empty(a + b) =~= non_empty(a) + non_empty(b));
    }
}

/// What is written in decimal is read as the number that was written.
pub proof fn decimals_are_read_back(n: nat)
    ensures
        unsigned_value(decimal(n)) == Some(n),
        forall|i: int| 0 <= i < decimal(n).len() ==> '0' <= #[trigger] decimal(n)[i] <= '9',
        decimal(n).len() > 0,
        n > 0 ==> decimal(n)[0] != '0',
    decreases n,
{
    if n >= 10 {
        decimals_are_read_back(n / 10);
        let front = decimal(n / 10);
        assert(decimal(n).drop_last() =~= front);
        assert(unsigned_digits(front) == front);
    } else {
        assert(decimal(n).drop_last().len() == 0);
        reveal_with_fuel(digits_value, 2);
    }
    assert(decimal(n)[0] != '+');
    assert(digits_value(decimal(n)) == n);
}

/// Only white space is taken off the ends of a text, and all of it.
pub proof fn only_white_space_is_trimmed(s: Seq<char>)
    ensures
        exists|a: int, b: int|
            {
                &&& 0 <= a <= b <= s.len()
                &&& trim(s) == #[trigger] s.subrange(a, b)
                &&& forall|i: int| 0 <= i < a ==> white_space(#[trigger] s[i])
                &&& forall|i: int| b <= i < s.len() ==> white_space(#[trigger] s[i])
            },
        trim(s).len() > 0 ==> !white_space(trim(s)[0]) && !white_space(trim(s).last()),
{
    let a = lemma_trim_start(s);
    let b = lemma_trim_end(s.skip(a));
    assert(s.skip(a).take(b) =~= s.subrange(a, a + b));
    assert forall|i: int| a + b <= i < s.len() implies white_space(#[trigger] s[i]) by {
        assert(s.skip(a)[i - a] == s[i]);
    }
    if trim(s).len() > 0 {
        assert(trim(s)[0] == s.skip(a)[0]);
    }
}

proof fn lemma_trim_start(s: Seq<char>) -> (a: int)
    ensures
        0 <= a <= s.len(),
        trim_start(s) == s.skip(a),
        forall|i: int| 0 <= i < a ==> white_space(#[trigger] s[i]),
        a < s.len() ==> !white_space(s[a]),
    decreases s.len(),
{
    if s.len() > 0 && white_space(s[0]) {
        let a = lemma_trim_start(s.skip(1));
        assert(s.skip(1).skip(a) =~= s.skip(a + 1));
        assert forall|i: int| 0 <= i < a + 1 implies white_space(#[trigger] s[i]) by {
            if i > 0 {
                assert(s.skip(1)[i - 1] == s[i]);
            }
        }
        a + 1
    } else {
        assert(s.skip(0) =~= s);
        0
    }
}

proof fn lemma_trim_end(s: Seq<char>) -> (b: int)
    ensures
        0 <= b <= s.len(),
        trim_end(s) == s.take(b),
        forall|i: int| b <= i < s.len() ==> white_space(#[trigger] s[i]),
        b > 0 ==> !white_space(s[b - 1]),
    decreases s.len(),
{
    if s.len() > 0 && white_space(s.last()) {
        let front = s.drop_last();
        let b = lemma_trim_end(front);
        assert(front.take(b) =~= s.take(b));
        assert forall|i: int| b <= i < s.len() implies white_space(#[trigger] s[i]) by {
            if i < front.len() {
                assert(front[i] == s[i]);
            }
        }
        b
    } else {
        assert(s.take(s.len() as int) =~= s);
        s.len() as int
    }
}

/// A text that stands between two others is held.
pub proof fn a_part_is_held(a: Seq<char>, part: Seq<char>, b: Seq<char>)
    ensures
        holds(a + part + b, part),
{
    let s = a + part + b;
    let rest = s.skip(a.len() as int);
    assert(rest.take(part.len() as int) =~= part);
    assert(begins_with(rest, part));
}

/// What a text holds stands between two others that make it up.
pub proof fn what_is_held_is_a_part(s: Seq<char>, part: Seq<char>) -> (r: (Seq<char>, Seq<char>))
    requires
        holds(s, part),
    ensures
        s == r.0 + part + r.1,
{
    let i = choose|i: int| 0 <= i <= s.len() && begins_with(#[trigger] s.skip(i), part);
    let rest = s.skip(i);
    let a = s.take(i);
    let b = rest.skip(part.len() as int);
    assert(rest =~= rest.take(part.len() as int) + b);
    assert(s =~= a + rest);
    assert(s =~= a + part + b);
    (a, b)
}

/// Joining one piece leaves it as it is, and one more piece comes after a separator.
pub proof fn joining_one_more(pieces: Seq<Seq<char>>, last: Seq<char>, sep: Seq<char>)
    ensures
        join(seq![last], sep) == last,
        pieces.len() > 0 ==> join(pieces.push(last), sep) == join(pieces, sep) + sep + last,
        join(Seq::empty(), sep) == Seq::<char>::empty(),
{
    assert(pieces.push(last).drop_last() =~= pieces);
}

/// Replacing a part of a text puts what replaces it in the place of the first occurrence and goes on
/// behind that; a text without an occurrence stays as it is.
pub proof fn the_first_occurrence_is_replaced(
    before: Seq<char>,
    part: Seq<char>,
    rest: Seq<char>,
    by: Seq<char>,
)
    requires
        part.len() > 0,
        forall|k: int|
            0 <= k < before.len() ==> #[trigger] (before + part).subrange(k, k + part.len())
                != part,
    ensures
        replaced(before + part + rest, part, by) == before + by + replaced(rest, part, by),
    decreases before.len(),
{
    let whole = before + part + rest;
    let n = part.len() as int;
    if before.len() == 0 {
        assert(whole.take(n) =~= part);
        assert(whole.skip(n) =~= rest);
        assert(before + by + replaced(rest, part, by) =~= by + replaced(rest, part, by));
    } else {
        let tail = before.skip(1);
        assert((before + part).subrange(0, 0 + n) != part);
        assert(whole.take(n) =~= (before + part).subrange(0, 0 + n));
        assert(whole.skip(1) =~= tail + part + rest);
        assert forall|k: int| 0 <= k < tail.len() implies #[trigger] (tail + part).subrange(
            k,
            k + part.len(),
        ) != part by {
            assert((before + part).subrange(k + 1, k + 1 + part.len()) != part);
            assert((before + part).subrange(k + 1, k + 1 + part.len()) =~= (tail + part).subrange(
                k,
                k + part.len(),
            ));
        }
        the_first_occurrence_is_replaced(tail, part, rest, by);
        assert(seq![whole[0]] + (tail + by + replaced(rest, part, by)) =~= before + by + replaced(
            rest,
            part,
            by,
        ));
    }
}

/// A text in which a part does not occur is left as it is when the part is replaced.
pub proof fn without_an_occurrence_nothing_is_replaced(
    s: Seq<char>,
    part: Seq<char>,
    by: Seq<char>,
)
    requires
        forall|k: int|
            0 <= k <= s.len() - part.len() ==> #[trigger] s.subrange(k, k + part.len()) != part,
    ensures
        replaced(s, part, by) == s,
    decreases s.len(),
{
    if part.len() > 0 && s.len() >= part.len() {
        let n = part.len() as int;
        assert(s.subrange(0, 0 + n) != part);
        assert(s.take(n) =~= s.subrange(0, 0 + n));
        let tail = s.skip(1);
        assert forall|k: int| 0 <= k <= tail.len() - part.len() implies #[trigger] tail.subrange(
            k,
            k + part.len(),
        ) != part by {
            assert(s.subrange(k + 1, k + 1 + part.len()) != part);
            assert(s.subrange(k + 1, k + 1 + part.len()) =~= tail.subrange(k, k + part.len()));
        }
        without_an_occurrence_nothing_is_replaced(tail, part, by);
        assert(seq![s[0]] + tail =~= s);
    }
}

/// A number is written digit by digit: what is left of the last digit is the number divided by ten.
/// A negative number is written with a sign before it.
pub proof fn numbers_are_written_digit_by_digit(n: nat, d: nat)
    requires
        d < 10,
    ensures
        n > 0 ==> decimal(10 * n + d) == decimal(n) + decimal(d),
        decimal(d).len() == 1,
        decimal(d)[0] as u32 == '0' as u32 + d,
        decimal_int(n as int) == decimal(n),
        n > 0 ==> decimal_int(-(n as int)) == seq!['-'] + decimal(n),
{
    assert(decimal(d).len() == 1);
    if n > 0 {
        let m = 10 * n + d;
        assert(m / 10 == n && m % 10 == d);
        assert(decimal(m) =~= decimal(n) + decimal(d));
        assert(decimal_int(-(n as int)) =~= seq!['-'] + decimal(n));
    }
}

/// The white space of ASCII around a text is taken off, and nothing else is.
pub proof fn blanks_around_are_trimmed(before: Seq<char>, s: Seq<char>, after: Seq<char>)
    requires
        s.len() > 0,
        forall|i: int|
            0 <= i < before.len() ==> #[trigger] before[i] == ' ' || 9 <= before[i] as u32 <= 13,
        forall|i: int|
            0 <= i < after.len() ==> #[trigger] after[i] == ' ' || 9 <= after[i] as u32 <= 13,
        s[0] != ' ' && !(9 <= s[0] as u32 <= 13),
        s.last() != ' ' && !(9 <= s.last() as u32 <= 13),
    ensures
        ascii_trim(before + s + after) == s,
{
    lemma_ascii_trim_start(before, s + after);
    lemma_ascii_trim_end(s, after);
    assert(before + s + after =~= before + (s + after));
}

proof fn lemma_ascii_trim_start(before: Seq<char>, s: Seq<char>)
    requires
        s.len() > 0,
        forall|i: int|
            0 <= i < before.len() ==> #[trigger] before[i] == ' ' || 9 <= before[i] as u32 <= 13,
        s[0] != ' ' && !(9 <= s[0] as u32 <= 13),
    ensures
        ascii_trim_start(before + s) == s,
    decreases before.len(),
{
    if before.len() == 0 {
        assert(before + s =~= s);
        lemma_ascii_space(s[0]);
    } else {
        lemma_ascii_space(before[0]);
        lemma_ascii_trim_start(before.skip(1), s);
        assert((before + s).skip(1) =~= before.skip(1) + s);
    }
}

proof fn lemma_ascii_trim_end(s: Seq<char>, after: Seq<char>)
    requires
        s.len() > 0,
        forall|i: int|
            0 <= i < after.len() ==> #[trigger] after[i] == ' ' || 9 <= after[i] as u32 <= 13,
        s.last() != ' ' && !(9 <= s.last() as u32 <= 13),
    ensures
        ascii_trim_end(s + after) == s,
    decreases after.len(),
{
    if after.len() == 0 {
        assert(s + after =~= s);
        lemma_ascii_space(s.last());
    } else {
        lemma_ascii_space(after.last());
        lemma_ascii_trim_end(s, after.drop_last());
        assert((s + after).drop_last() =~= s + after.drop_last());
    }
}

proof fn lemma_ascii_space(c: char)
    ensures
        ascii_space(c) <==> c == ' ' || 9 <= c as u32 <= 13,
{
}

/// Every run of digits is a number, and a number may be written with a plus sign before it. What is
/// empty, a sign alone, or holds anything but digits behind the sign, is none.
pub proof fn what_is_read_as_a_number(n: nat, s: Seq<char>, i: int)
    ensures
        unsigned_value(seq!['+'] + decimal(n)) == Some(n),
        unsigned_value(Seq::empty()) is None,
        unsigned_value(seq!['+']) is None,
        0 < i < s.len() && !('0' <= s[i] <= '9') ==> unsigned_value(s) is None,
        s.len() > 0 && s[0] != '+' && !('0' <= s[0] <= '9') ==> unsigned_value(s) is None,
        s.len() > 0 && (forall|k: int| 0 <= k < s.len() ==> '0' <= #[trigger] s[k] <= '9')
            ==> unsigned_value(s) is Some,
{
    let written = decimal(n);
    let signed = seq!['+'] + written;
    decimals_are_read_back(n);
    assert(signed.skip(1) =~= written);
    assert(written[0] != '+');
    if s.len() > 0 && s[0] != '+' && !('0' <= s[0] <= '9') {
        lemma_is_digit(s[0]);
        assert(!is_digit(unsigned_digits(s)[0]));
    }
    if 0 < i < s.len() && !('0' <= s[i] <= '9') {
        let digits = unsigned_digits(s);
        lemma_is_digit(s[i]);
        if s[0] == '+' {
            assert(!is_digit(digits[i - 1]));
        } else {
            assert(!is_digit(digits[i]));
        }
    }
    if s.len() > 0 && (forall|k: int| 0 <= k < s.len() ==> '0' <= #[trigger] s[k] <= '9') {
        assert('0' <= s[0] <= '9');
        assert forall|k: int| 0 <= k < s.len() implies is_digit(#[trigger] s[k]) by {
            lemma_is_digit(s[k]);
        }
    }
}

proof fn lemma_is_digit(c: char)
    ensures
        is_digit(c) == ('0' <= c <= '9'),
{
}

/// A text is ASCII where the codes of all its characters take seven bits.
pub proof fn ascii_takes_seven_bits(s: Seq<char>)
    ensures
        is_ascii(s) <==> forall|i: int| 0 <= i < s.len() ==> (#[trigger] s[i]) as u32 <= 127,
{
}

} // verus!
