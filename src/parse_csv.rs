//! Parsing of comma-separated lists given on the command line: plain values
//! (`"10,20,30"`) and frame-delay pairs (`"1=50,2=100"`).

use std::collections::HashMap;

use vstd::prelude::*;

verus! {

broadcast use vstd::std_specs::hash::group_hash_axioms;

/// The Unicode `White_Space` characters, which `str::trim` strips.
pub open spec fn is_white_space(c: char) -> bool {
    let u = c as u32;
    ||| 9 <= u <= 13
    ||| u == 0x20
    ||| u == 0x85
    ||| u == 0xa0
    ||| u == 0x1680
    ||| 0x2000 <= u <= 0x200a
    ||| u == 0x2028
    ||| u == 0x2029
    ||| u == 0x202f
    ||| u == 0x205f
    ||| u == 0x3000
}

pub open spec fn trim_start(s: Seq<char>) -> Seq<char>
    decreases s.len(),
{
    if s.len() > 0 && is_white_space(s[0]) {
        trim_start(s.drop_first())
    } else {
        s
    }
}

pub open spec fn trim_end(s: Seq<char>) -> Seq<char>
    decreases s.len(),
{
    if s.len() > 0 && is_white_space(s.last()) {
        trim_end(s.drop_last())
    } else {
        s
    }
}

/// `s` without leading and trailing white space.
pub open spec fn trim(s: Seq<char>) -> Seq<char> {
    trim_end(trim_start(s))
}

pub open spec fn is_digit(c: char) -> bool {
    48 <= c as u32 <= 57
}

/// The number a string of ASCII digits denotes in decimal.
pub open spec fn digits_value(s: Seq<char>) -> nat
    decreases s.len(),
{
    if s.len() == 0 {
        0
    } else {
        digits_value(s.drop_last()) * 10 + (s.last() as u32 - 48) as nat
    }
}

pub open spec fn strip_plus(s: Seq<char>) -> Seq<char> {
    if s.len() > 0 && s[0] == '+' {
        s.drop_first()
    } else {
        s
    }
}

/// Text that reads as an unsigned integer: an optional `+`, then one or more
/// ASCII digits.
pub open spec fn is_unsigned_text(s: Seq<char>) -> bool {
    &&& strip_plus(s).len() > 0
    &&& forall|i: int| 0 <= i < strip_plus(s).len() ==> is_digit(#[trigger] strip_plus(s)[i])
}

/// The unsigned integer `s` denotes, when it denotes one no greater than `max`.
pub open spec fn parse_unsigned(s: Seq<char>, max: nat) -> Option<nat> {
    if is_unsigned_text(s) && digits_value(strip_plus(s)) <= max {
        Some(digits_value(strip_plus(s)))
    } else {
        None
    }
}

/// The pieces of `s` between occurrences of `sep`; one empty piece for an
/// empty `s`.
pub open spec fn split_on(s: Seq<char>, sep: char) -> Seq<Seq<char>>
    decreases s.len(),
{
    if s.len() == 0 {
        seq![Seq::empty()]
    } else {
        let init = split_on(s.drop_last(), sep);
        if s.last() == sep {
            init.push(Seq::empty())
        } else {
            init.update(init.len() - 1, init.last().push(s.last()))
        }
    }
}

/// The position of the first `c` in `s`, or -1.
pub open spec fn index_of(s: Seq<char>, c: char) -> int
    decreases s.len(),
{
    if s.len() == 0 {
        -1
    } else {
        let k = index_of(s.drop_last(), c);
        if k >= 0 {
            k
        } else if s.last() == c {
            s.len() - 1
        } else {
            -1
        }
    }
}

pub open spec fn invalid_value_message(piece: Seq<char>) -> Seq<char> {
    "Invalid value in list: '"@ + piece + "'"@
}

pub open spec fn invalid_format_message(piece: Seq<char>) -> Seq<char> {
    "Invalid format: '"@ + piece + "'"@
}

pub open spec fn invalid_index_message(key: Seq<char>) -> Seq<char> {
    "Invalid frame index: '"@ + key + "'"@
}

pub open spec fn invalid_delay_message(value: Seq<char>) -> Seq<char> {
    "Invalid delay value: '"@ + value + "'"@
}

/// The values of a list of pieces, or the message for the first piece that is
/// no `u16`.
pub open spec fn u16_values(pieces: Seq<Seq<char>>) -> Result<Seq<u16>, Seq<char>>
    decreases pieces.len(),
{
    if pieces.len() == 0 {
        Ok(Seq::empty())
    } else {
        match u16_values(pieces.drop_last()) {
            Err(e) => Err(e),
            Ok(vs) => match parse_unsigned(trim(pieces.last()), u16::MAX as nat) {
                Some(v) => Ok(vs.push(v as u16)),
                None => Err(invalid_value_message(pieces.last())),
            },
        }
    }
}

/// What a comma-separated list of `u16` values parses to.
pub open spec fn csv_u16(s: Seq<char>) -> Result<Seq<u16>, Seq<char>> {
    u16_values(split_on(s, ','))
}

/// One `index=delay` piece: the pair, or the message for what is wrong with it.
pub open spec fn keyval_entry(piece: Seq<char>) -> Result<(usize, u16), Seq<char>> {
    let e = index_of(piece, '=');
    if e < 0 {
        Err(invalid_format_message(piece))
    } else {
        let key = piece.subrange(0, e);
        let value = piece.subrange(e + 1, piece.len() as int);
        match parse_unsigned(trim(key), usize::MAX as nat) {
            None => Err(invalid_index_message(key)),
            Some(k) => match parse_unsigned(trim(value), u16::MAX as nat) {
                None => Err(invalid_delay_message(value)),
                Some(d) => Ok((k as usize, d as u16)),
            },
        }
    }
}

/// The map a list of `index=delay` pieces builds, a later pair replacing an
/// earlier one with the same index; or the message for the first bad piece.
pub open spec fn keyval_map(pieces: Seq<Seq<char>>) -> Result<Map<usize, u16>, Seq<char>>
    decreases pieces.len(),
{
    if pieces.len() == 0 {
        Ok(Map::empty())
    } else {
        match keyval_map(pieces.drop_last()) {
            Err(e) => Err(e),
            Ok(m) => match keyval_entry(pieces.last()) {
                Err(e) => Err(e),
                Ok(kv) => Ok(m.insert(kv.0, kv.1)),
            },
        }
    }
}

/// What a comma-separated list of `index=delay` pairs parses to.
pub open spec fn csv_keyval(s: Seq<char>) -> Result<Map<usize, u16>, Seq<char>> {
    keyval_map(split_on(s, ','))
}

proof fn lemma_digits_value_grows(s: Seq<char>, n: int)
    requires
        0 <= n <= s.len(),
        forall|i: int| 0 <= i < s.len() ==> is_digit(#[trigger] s[i]),
    ensures
        digits_value(s.subrange(0, n)) <= digits_value(s),
    decreases s.len() - n,
{
    if n < s.len() {
        assert(s.subrange(0, n + 1).drop_last() =~= s.subrange(0, n));
        lemma_digits_value_grows(s, n + 1);
    } else {
        assert(s.subrange(0, n) =~= s);
    }
}

proof fn lemma_index_of_prefix(s: Seq<char>, c: char, n: int)
    requires
        0 <= n <= s.len(),
        index_of(s.subrange(0, n), c) >= 0,
    ensures
        index_of(s, c) == index_of(s.subrange(0, n), c),
    decreases s.len() - n,
{
    if n < s.len() {
        assert(s.subrange(0, n + 1).drop_last() =~= s.subrange(0, n));
        lemma_index_of_prefix(s, c, n + 1);
    } else {
        assert(s.subrange(0, n) =~= s);
    }
}

fn is_white_space_exec(c: char) -> (r: bool)
    ensures
        r == is_white_space(c),
{
    let u = c as u32;
    (9 <= u && u <= 13) || u == 0x20 || u == 0x85 || u == 0xa0 || u == 0x1680 || (0x2000 <= u && u
        <= 0x200a) || u == 0x2028 || u == 0x2029 || u == 0x202f || u == 0x205f || u == 0x3000
}

/// The characters of `s`, in order.
fn chars_of(s: &str) -> (r: Vec<char>)
    ensures
        r@ == s@,
{
    let n = s.unicode_len();
    let mut r: Vec<char> = Vec::new();
    let mut i: usize = 0;
    while i < n
        invariant
            n == s@.len(),
            i <= n,
            r@ == s@.subrange(0, i as int),
        decreases n - i,
    {
        r.push(s.get_char(i));
        i += 1;
        assert(r@ =~= s@.subrange(0, i as int));
    }
    assert(r@ =~= s@);
    r
}

/// The bounds of `chars[from..to]` without leading and trailing white space.
fn trim_range(chars: &Vec<char>, from: usize, to: usize) -> (r: (usize, usize))
    requires
        from <= to <= chars@.len(),
    ensures
        from <= r.0 <= r.1 <= to,
        chars@.subrange(r.0 as int, r.1 as int) == trim(chars@.subrange(from as int, to as int)),
{
    let mut a = from;
    while a < to && is_white_space_exec(chars[a])
        invariant
            from <= a <= to <= chars@.len(),
            trim_start(chars@.subrange(from as int, to as int)) == trim_start(
                chars@.subrange(a as int, to as int),
            ),
        decreases to - a,
    {
        assert(chars@.subrange(a as int, to as int).drop_first() =~= chars@.subrange(a + 1, to as int));
        a += 1;
    }
    let mut b = to;
    while b > a && is_white_space_exec(chars[b - 1])
        invariant
            from <= a <= b <= to <= chars@.len(),
            trim_start(chars@.subrange(from as int, to as int)) == chars@.subrange(a as int, to as int),
            trim_end(chars@.subrange(a as int, to as int)) == trim_end(chars@.subrange(a as int, b as int)),
        decreases b - a,
    {
        assert(chars@.subrange(a as int, b as int).drop_last() =~= chars@.subrange(a as int, b - 1));
        b -= 1;
    }
    (a, b)
}

/// Reads `chars[from..to]` as an unsigned integer no greater than `max`.
fn parse_unsigned_range(chars: &Vec<char>, from: usize, to: usize, max: u64) -> (r: Option<u64>)
    requires
        from <= to <= chars@.len(),
    ensures
        match r {
            Some(v) => parse_unsigned(chars@.subrange(from as int, to as int), max as nat) == Some(
                v as nat,
            ),
            None => parse_unsigned(chars@.subrange(from as int, to as int), max as nat) is None,
        },
{
    let ghost text = chars@.subrange(from as int, to as int);
    let mut start = from;
    if start < to && chars[start] == '+' {
        start += 1;
    }
    let ghost digits = strip_plus(text);
    assert(digits =~= chars@.subrange(start as int, to as int));
    if start == to {
        return None;
    }
    let mut value: u64 = 0;
    let mut i = start;
    while i < to
        invariant
            from <= start <= i <= to <= chars@.len(),
            digits == chars@.subrange(start as int, to as int),
            digits == strip_plus(text),
            text == chars@.subrange(from as int, to as int),
            value == digits_value(chars@.subrange(start as int, i as int)),
            value <= max,
            forall|j: int| start <= j < i ==> is_digit(#[trigger] chars@[j]),
        decreases to - i,
    {
        let c = chars[i];
        let u = c as u32;
        if u < 48 || u > 57 {
            assert(c == chars@[i as int]);
            assert(digits[i - start] == c);
            assert(!is_digit(strip_plus(text)[i - start]));
            return None;
        }
        proof {
            assert(chars@.subrange(start as int, i + 1).drop_last() =~= chars@.subrange(
                start as int,
                i as int,
            ));
        }
        let next: u128 = value as u128 * 10 + (u - 48) as u128;
        if next > max as u128 {
            proof {
                if is_unsigned_text(text) {
                    assert forall|j: int| 0 <= j < digits.len() implies is_digit(#[trigger] digits[j]) by {
                        assert(is_digit(strip_plus(text)[j]));
                    }
                    assert(digits.subrange(0, i + 1 - start) =~= chars@.subrange(start as int, i + 1));
                    lemma_digits_value_grows(digits, i + 1 - start);
                }
            }
            return None;
        }
        value = next as u64;
        i += 1;
    }
    assert(chars@.subrange(start as int, to as int) =~= digits);
    assert forall|j: int| 0 <= j < digits.len() implies is_digit(#[trigger] digits[j]) by {
        assert(digits[j] == chars@[start + j]);
    }
    Some(value)
}

/// Parses a comma-separated list of `u16` values, each possibly surrounded by
/// white space (`"10, 20,30"`). The first piece that is no `u16` makes the
/// error, which quotes it.
pub fn parse_csv(input: &str) -> (r: Result<Vec<u16>, String>)
    ensures
        match r {
            Ok(values) => csv_u16(input@) == Ok::<Seq<u16>, Seq<char>>(values@),
            Err(message) => csv_u16(input@) == Err::<Seq<u16>, Seq<char>>(message@),
        },
{
    let chars = chars_of(input);
    let len = chars.len();
    let ghost s = chars@;
    let mut values: Vec<u16> = Vec::new();
    let ghost mut done: Seq<Seq<char>> = Seq::empty();
    let mut start: usize = 0;
    let mut i: usize = 0;
    assert(s.subrange(0, 0) =~= Seq::<char>::empty());
    loop
        invariant
            s == chars@,
            s == input@,
            len == s.len(),
            start <= i <= len,
            split_on(s.subrange(0, i as int), ',') == done.push(s.subrange(start as int, i as int)),
            u16_values(done) == Ok::<Seq<u16>, Seq<char>>(values@),
        decreases len - i,
    {
        if i == len || chars[i] == ',' {
            let ghost piece = s.subrange(start as int, i as int);
            let (a, b) = trim_range(&chars, start, i);
            match parse_unsigned_range(&chars, a, b, u16::MAX as u64) {
                Some(v) => {
                    values.push(v as u16);
                    assert(done.push(piece).drop_last() =~= done);
                },
                None => {
                    assert(done.push(piece).drop_last() =~= done);
                    let text = input.substring_char(start, i);
                    let message = String::from_str("Invalid value in list: '").concat(text).concat("'");
                    proof {
                        if i < len {
                            assert(s.subrange(0, i + 1).drop_last() =~= s.subrange(0, i as int));
                            assert(s.subrange(0, i + 1).last() == ',');
                            assert(s.subrange(i as int, i as int) =~= Seq::<char>::empty());
                            lemma_piece_is_prefix(s, i as int, done.push(piece));
                            lemma_u16_values_error_kept(done.push(piece), split_on(s, ','));
                        } else {
                            assert(s.subrange(0, i as int) =~= s);
                        }
                    }
                    return Err(message);
                },
            }
            if i == len {
                assert(s.subrange(0, i as int) =~= s);
                return Ok(values);
            }
            proof {
                assert(s.subrange(0, i + 1).drop_last() =~= s.subrange(0, i as int));
                assert(s.subrange(i + 1, i + 1) =~= Seq::<char>::empty());
            }
            proof {
                done = done.push(piece);
            }
            start = i + 1;
        } else {
            proof {
                assert(s.subrange(0, i + 1).drop_last() =~= s.subrange(0, i as int));
                assert(s.subrange(start as int, i + 1) =~= s.subrange(start as int, i as int).push(
                    s[i as int],
                ));
            }
        }
        i += 1;
    }
}

/// Parses the `index=delay` piece `chars[start..end]` of `input`.
fn parse_pair(input: &str, chars: &Vec<char>, start: usize, end: usize) -> (r: Result<(usize, u16), String>)
    requires
        chars@ == input@,
        start <= end <= chars@.len(),
    ensures
        match r {
            Ok(kv) => keyval_entry(input@.subrange(start as int, end as int)) == Ok::<
                (usize, u16),
                Seq<char>,
            >(kv),
            Err(message) => keyval_entry(input@.subrange(start as int, end as int)) == Err::<
                (usize, u16),
                Seq<char>,
            >(message@),
        },
{
    let ghost piece = input@.subrange(start as int, end as int);
    let mut e = start;
    assert(chars@.subrange(start as int, start as int) =~= Seq::<char>::empty());
    while e < end && chars[e] != '='
        invariant
            start <= e <= end <= chars@.len(),
            index_of(chars@.subrange(start as int, e as int), '=') == -1,
        decreases end - e,
    {
        assert(chars@.subrange(start as int, e + 1).drop_last() =~= chars@.subrange(start as int, e as int));
        e += 1;
    }
    if e == end {
        assert(chars@.subrange(start as int, e as int) =~= piece);
        let text = input.substring_char(start, end);
        return Err(String::from_str("Invalid format: '").concat(text).concat("'"));
    }
    proof {
        assert(chars@.subrange(start as int, e + 1).drop_last() =~= chars@.subrange(start as int, e as int));
        assert(piece.subrange(0, e + 1 - start) =~= chars@.subrange(start as int, e + 1));
        lemma_index_of_prefix(piece, '=', e + 1 - start);
        assert(piece.subrange(0, e - start) =~= chars@.subrange(start as int, e as int));
        assert(piece.subrange(e + 1 - start, piece.len() as int) =~= chars@.subrange(e + 1, end as int));
    }
    let (ka, kb) = trim_range(chars, start, e);
    let key = match parse_unsigned_range(chars, ka, kb, usize::MAX as u64) {
        Some(k) => k as usize,
        None => {
            let text = input.substring_char(start, e);
            return Err(String::from_str("Invalid frame index: '").concat(text).concat("'"));
        },
    };
    let (va, vb) = trim_range(chars, e + 1, end);
    match parse_unsigned_range(chars, va, vb, u16::MAX as u64) {
        Some(d) => Ok((key, d as u16)),
        None => {
            let text = input.substring_char(e + 1, end);
            Err(String::from_str("Invalid delay value: '").concat(text).concat("'"))
        },
    }
}

/// Parses a comma-separated list of `index=delay` pairs (`"1=50, 2=100"`) into
/// a map from frame index to delay; a later pair for the same index replaces
/// an earlier one. The first bad piece makes the error, which quotes it.
pub fn parse_keyval_csv(input: &str) -> (r: Result<HashMap<usize, u16>, String>)
    ensures
        match r {
            Ok(map) => csv_keyval(input@) == Ok::<Map<usize, u16>, Seq<char>>(map@),
            Err(message) => csv_keyval(input@) == Err::<Map<usize, u16>, Seq<char>>(message@),
        },
{
    let chars = chars_of(input);
    let len = chars.len();
    let ghost s = chars@;
    let mut map: HashMap<usize, u16> = HashMap::new();
    let ghost mut done: Seq<Seq<char>> = Seq::empty();
    let mut start: usize = 0;
    let mut i: usize = 0;
    assert(s.subrange(0, 0) =~= Seq::<char>::empty());
    loop
        invariant
            s == chars@,
            s == input@,
            len == s.len(),
            start <= i <= len,
            split_on(s.subrange(0, i as int), ',') == done.push(s.subrange(start as int, i as int)),
            keyval_map(done) == Ok::<Map<usize, u16>, Seq<char>>(map@),
        decreases len - i,
    {
        if i == len || chars[i] == ',' {
            let ghost piece = s.subrange(start as int, i as int);
            assert(done.push(piece).drop_last() =~= done);
            match parse_pair(input, &chars, start, i) {
                Ok((k, d)) => {
                    map.insert(k, d);
                },
                Err(message) => {
                    proof {
                        if i < len {
                            assert(s.subrange(0, i + 1).drop_last() =~= s.subrange(0, i as int));
                            assert(s.subrange(0, i + 1).last() == ',');
                            assert(s.subrange(i as int, i as int) =~= Seq::<char>::empty());
                            lemma_piece_is_prefix(s, i as int, done.push(piece));
                            lemma_keyval_map_error_kept(done.push(piece), split_on(s, ','));
                        } else {
                            assert(s.subrange(0, i as int) =~= s);
                        }
                    }
                    return Err(message);
                },
            }
            if i == len {
                assert(s.subrange(0, i as int) =~= s);
                return Ok(map);
            }
            proof {
                assert(s.subrange(0, i + 1).drop_last() =~= s.subrange(0, i as int));
                assert(s.subrange(i + 1, i + 1) =~= Seq::<char>::empty());
            }
            proof {
                done = done.push(piece);
            }
            start = i + 1;
        } else {
            proof {
                assert(s.subrange(0, i + 1).drop_last() =~= s.subrange(0, i as int));
                assert(s.subrange(start as int, i + 1) =~= s.subrange(start as int, i as int).push(
                    s[i as int],
                ));
            }
        }
        i += 1;
    }
}

proof fn lemma_split_nonempty(s: Seq<char>, sep: char)
    ensures
        split_on(s, sep).len() >= 1,
    decreases s.len(),
{
    if s.len() > 0 {
        lemma_split_nonempty(s.drop_last(), sep);
    }
}

/// The pieces of a prefix, but for the last one (which may still grow), start
/// the pieces of the whole.
proof fn lemma_split_prefix(s: Seq<char>, sep: char, n: int)
    requires
        0 <= n <= s.len(),
    ensures
        split_on(s.subrange(0, n), sep).len() <= split_on(s, sep).len(),
        split_on(s, sep).subrange(0, split_on(s.subrange(0, n), sep).len() - 1) == split_on(
            s.subrange(0, n),
            sep,
        ).drop_last(),
    decreases s.len() - n,
{
    let a = split_on(s.subrange(0, n), sep);
    lemma_split_nonempty(s.subrange(0, n), sep);
    if n == s.len() {
        assert(s.subrange(0, n) =~= s);
        assert(split_on(s, sep).subrange(0, a.len() - 1) =~= a.drop_last());
    } else {
        lemma_split_prefix(s, sep, n + 1);
        let b = split_on(s.subrange(0, n + 1), sep);
        assert(s.subrange(0, n + 1).drop_last() =~= s.subrange(0, n));
        assert(b.drop_last().subrange(0, a.len() - 1) =~= a.drop_last());
        assert(split_on(s, sep).subrange(0, a.len() - 1) =~= split_on(s, sep).subrange(
            0,
            b.len() - 1,
        ).subrange(0, a.len() - 1));
    }
}

/// At a separator at `i`, the pieces up to and including the one that ends
/// there start the pieces of the whole.
proof fn lemma_piece_is_prefix(s: Seq<char>, i: int, closed: Seq<Seq<char>>)
    requires
        0 <= i < s.len(),
        s[i] == ',',
        split_on(s.subrange(0, i + 1), ',') == closed.push(Seq::empty()),
    ensures
        closed.len() <= split_on(s, ',').len(),
        split_on(s, ',').subrange(0, closed.len() as int) == closed,
{
    lemma_split_prefix(s, ',', i + 1);
    assert(closed.push(Seq::empty()).drop_last() =~= closed);
}

proof fn lemma_u16_values_error_kept(prefix: Seq<Seq<char>>, full: Seq<Seq<char>>)
    requires
        prefix.len() <= full.len(),
        full.subrange(0, prefix.len() as int) == prefix,
        u16_values(prefix) is Err,
    ensures
        u16_values(full) == u16_values(prefix),
    decreases full.len(),
{
    if full.len() > prefix.len() {
        assert(full.drop_last().subrange(0, prefix.len() as int) =~= prefix);
        lemma_u16_values_error_kept(prefix, full.drop_last());
    } else {
        assert(full =~= prefix);
    }
}

proof fn lemma_keyval_map_error_kept(prefix: Seq<Seq<char>>, full: Seq<Seq<char>>)
    requires
        prefix.len() <= full.len(),
        full.subrange(0, prefix.len() as int) == prefix,
        keyval_map(prefix) is Err,
    ensures
        keyval_map(full) == keyval_map(prefix),
    decreases full.len(),
{
    if full.len() > prefix.len() {
        assert(full.drop_last().subrange(0, prefix.len() as int) =~= prefix);
        lemma_keyval_map_error_kept(prefix, full.drop_last());
    } else {
        assert(full =~= prefix);
    }
}

} // verus!
