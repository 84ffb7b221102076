//! Small helpers for working with text as sequences of characters.

use vstd::prelude::*;

verus! {

/// `String::push` appends one character to the end of the string.
pub assume_specification[ String::push ](s: &mut String, c: char)
    ensures
        final(s)@ == old(s)@.push(c),
;

/// Whether `c`, a character from U+0080 on, has the Unicode property
/// `White_Space`, as `char::is_whitespace` tells it.
pub uninterp spec fn is_wide_whitespace(c: char) -> bool;

/// Whether `c` is the space or one of the characters from U+0009 to U+000D:
/// the whitespace below U+0080.
pub open spec fn is_narrow_whitespace(c: char) -> bool {
    c == ' ' || '\u{9}' <= c <= '\u{d}'
}

/// Whether `c` has the Unicode property `White_Space`.
pub open spec fn is_whitespace(c: char) -> bool {
    if c <= '\u{7f}' {
        is_narrow_whitespace(c)
    } else {
        is_wide_whitespace(c)
    }
}

/// `char::is_whitespace` depends on the character alone. Below U+0080 it holds
/// of the space and of U+0009 to U+000D; of the other characters only the name
/// is stated.
pub assume_specification[ char::is_whitespace ](c: char) -> (b: bool)
    ensures
        b == if c <= '\u{7f}' {
            is_narrow_whitespace(c)
        } else {
            is_wide_whitespace(c)
        },
;

/// The first index at or after `i` that holds no whitespace, or the length of `s`.
pub open spec fn skip_whitespace(s: Seq<char>, i: int) -> int
    decreases s.len() - i,
{
    if 0 <= i < s.len() && is_whitespace(s[i]) {
        skip_whitespace(s, i + 1)
    } else {
        i
    }
}

/// The first index at or after `i` that holds whitespace, or the length of `s`.
pub open spec fn skip_word(s: Seq<char>, i: int) -> int
    decreases s.len() - i,
{
    if 0 <= i < s.len() && !is_whitespace(s[i]) {
        skip_word(s, i + 1)
    } else {
        i
    }
}

/// The least index at or below `j` from which everything up to `j` is whitespace.
pub open spec fn skip_whitespace_back(s: Seq<char>, j: int) -> int
    decreases j,
{
    if 0 < j <= s.len() && is_whitespace(s[j - 1]) {
        skip_whitespace_back(s, j - 1)
    } else {
        j
    }
}

/// Where `s` starts once its leading whitespace is taken off.
pub open spec fn trim_start_index(s: Seq<char>) -> int {
    skip_whitespace(s, 0)
}

/// Where `s` ends once its trailing whitespace is taken off; for a text of
/// whitespace alone this is `trim_start_index`.
pub open spec fn trim_end_index(s: Seq<char>) -> int {
    let back = skip_whitespace_back(s, s.len() as int);
    if back < trim_start_index(s) {
        trim_start_index(s)
    } else {
        back
    }
}

/// `s` without its leading and trailing whitespace.
pub open spec fn trimmed(s: Seq<char>) -> Seq<char> {
    s.subrange(trim_start_index(s), trim_end_index(s))
}

/// The first run of characters of `s` that holds no whitespace; empty where `s`
/// has none.
pub open spec fn first_word(s: Seq<char>) -> Seq<char> {
    s.subrange(trim_start_index(s), skip_word(s, trim_start_index(s)))
}

/// Computes `skip_whitespace`.
pub fn find_non_whitespace(v: &Vec<char>, from: usize) -> (i: usize)
    requires
        from <= v.len(),
    ensures
        from <= i <= v.len(),
        i == skip_whitespace(v@, from as int),
{
    let mut i: usize = from;
    while i < v.len() && v[i].is_whitespace()
        invariant
            from <= i <= v.len(),
            skip_whitespace(v@, from as int) == skip_whitespace(v@, i as int),
        decreases v.len() - i,
    {
        i += 1;
    }
    i
}

/// Computes `skip_word`.
pub fn find_whitespace(v: &Vec<char>, from: usize) -> (i: usize)
    requires
        from <= v.len(),
    ensures
        from <= i <= v.len(),
        i == skip_word(v@, from as int),
{
    let mut i: usize = from;
    while i < v.len() && !v[i].is_whitespace()
        invariant
            from <= i <= v.len(),
            skip_word(v@, from as int) == skip_word(v@, i as int),
        decreases v.len() - i,
    {
        i += 1;
    }
    i
}

/// The bounds of `v` without its leading and trailing whitespace.
pub fn trim_bounds(v: &Vec<char>) -> (b: (usize, usize))
    ensures
        b.0 == trim_start_index(v@),
        b.1 == trim_end_index(v@),
        b.0 <= b.1 <= v.len(),
{
    let start = find_non_whitespace(v, 0);
    let mut end: usize = v.len();
    while end > 0 && v[end - 1].is_whitespace()
        invariant
            end <= v.len(),
            skip_whitespace_back(v@, v.len() as int) == skip_whitespace_back(v@, end as int),
        decreases end,
    {
        end -= 1;
    }
    if end < start {
        (start, start)
    } else {
        (start, end)
    }
}

/// The first index at or after `i` that holds `c`, or the length of `s`.
pub open spec fn find_char(s: Seq<char>, c: char, i: int) -> int
    decreases s.len() - i,
{
    if 0 <= i < s.len() && s[i] != c {
        find_char(s, c, i + 1)
    } else {
        i
    }
}

/// Finds the first `c` in `v[from..to]`: its index, or `to`. The result is
/// that of `find_char` on the line `v[start..to]`, for any `start` up to
/// `from`, counted from `start`.
pub fn find_char_from(v: &Vec<char>, c: char, from: usize, to: usize) -> (i: usize)
    requires
        from <= to <= v.len(),
    ensures
        from <= i <= to,
        forall|start: int|
            0 <= start <= from ==> i - start == find_char(
                #[trigger] v@.take(to as int).skip(start),
                c,
                from - start,
            ),
{
    let mut i: usize = from;
    while i < to && v[i] != c
        invariant
            from <= i <= to <= v.len(),
            forall|start: int|
                0 <= start <= from ==> find_char(
                    #[trigger] v@.take(to as int).skip(start),
                    c,
                    i - start,
                ) == find_char(v@.take(to as int).skip(start), c, from - start),
        decreases to - i,
    {
        assert forall|start: int| 0 <= start <= from implies find_char(
            #[trigger] v@.take(to as int).skip(start),
            c,
            i + 1 - start,
        ) == find_char(v@.take(to as int).skip(start), c, from - start) by {
            let line = v@.take(to as int).skip(start);
            assert(line[i - start] == v@[i as int]);
        }
        i += 1;
    }
    assert forall|start: int| 0 <= start <= from implies i - start == find_char(
        #[trigger] v@.take(to as int).skip(start),
        c,
        from - start,
    ) by {
        let line = v@.take(to as int).skip(start);
        if i < to {
            assert(line[i - start] == v@[i as int]);
        }
    }
    i
}

/// The characters of `s`, in order.
pub fn chars_of(s: &str) -> (v: Vec<char>)
    ensures
        v@ == s@,
{
    broadcast use vstd::string::group_string_axioms;

    let mut v: Vec<char> = Vec::new();
    for c in it: s.chars()
        invariant
            it.seq() == s@,
            v@ =~= it.seq().take(it.index()),
    {
        v.push(c);
    }
    assert(v@ =~= s@);
    v
}

/// The characters `v[from..to]`.
pub fn slice_of(v: &Vec<char>, from: usize, to: usize) -> (out: Vec<char>)
    requires
        from <= to <= v.len(),
    ensures
        out@ == v@.subrange(from as int, to as int),
{
    let mut out: Vec<char> = Vec::new();
    let mut i: usize = from;
    while i < to
        invariant
            from <= i <= to <= v.len(),
            out@ == v@.subrange(from as int, i as int),
        decreases to - i,
    {
        out.push(v[i]);
        i += 1;
        assert(out@ =~= v@.subrange(from as int, i as int));
    }
    out
}

/// The string made of the characters `v[from..to]`.
pub fn string_of(v: &Vec<char>, from: usize, to: usize) -> (s: String)
    requires
        from <= to <= v.len(),
    ensures
        s@ == v@.subrange(from as int, to as int),
{
    let mut s = String::new();
    let mut i: usize = from;
    while i < to
        invariant
            from <= i <= to <= v.len(),
            s@ == v@.subrange(from as int, i as int),
        decreases to - i,
    {
        s.push(v[i]);
        i += 1;
        assert(v@.subrange(from as int, i as int) =~= v@.subrange(from as int, i - 1).push(v@[i - 1]));
    }
    s
}

/// Tells whether the characters `v[from..to]` spell `word`.
pub fn matches_text(v: &Vec<char>, from: usize, to: usize, word: &str) -> (b: bool)
    requires
        from <= to <= v.len(),
    ensures
        b == (v@.subrange(from as int, to as int) == word@),
{
    let n: usize = word.unicode_len();
    if to - from != n {
        return false;
    }
    let mut i: usize = 0;
    while i < n
        invariant
            from <= to <= v.len(),
            n == word@.len(),
            to - from == n,
            0 <= i <= n,
            forall|k: int| 0 <= k < i ==> v@[from + k] == word@[k],
        decreases n - i,
    {
        if v[from + i] != word.get_char(i) {
            assert(v@.subrange(from as int, to as int)[i as int] != word@[i as int]);
            return false;
        }
        i += 1;
    }
    assert(v@.subrange(from as int, to as int) =~= word@);
    true
}

/// Whether `c` is one of the ten ASCII decimal digits.
pub open spec fn is_digit(c: char) -> bool {
    '0' <= c <= '9'
}

/// The value of the decimal digit `c`.
pub open spec fn digit_value(c: char) -> int {
    c as int - '0' as int
}

/// Whether every character of `s` is an ASCII decimal digit.
pub open spec fn all_digits(s: Seq<char>) -> bool {
    forall|i: int| 0 <= i < s.len() ==> is_digit(#[trigger] s[i])
}

/// The number that the decimal digits `s` denote, most significant digit first.
pub open spec fn decimal_value(s: Seq<char>) -> int
    decreases s.len(),
{
    if s.len() == 0 {
        0
    } else {
        decimal_value(s.drop_last()) * 10 + digit_value(s.last())
    }
}

/// The decimal digit for `d`, which is below ten.
pub open spec fn digit_char(d: int) -> char {
    (d + '0' as int) as char
}

/// The shortest decimal text of `n`.
pub open spec fn decimal_text(n: nat) -> Seq<char>
    decreases n,
{
    if n < 10 {
        seq![digit_char(n as int)]
    } else {
        decimal_text(n / 10).push(digit_char((n % 10) as int))
    }
}

/// The decimal text of a number is made of digits and denotes the number.
pub proof fn lemma_decimal_text_denotes(n: nat)
    ensures
        decimal_text(n).len() > 0,
        all_digits(decimal_text(n)),
        decimal_value(decimal_text(n)) == n,
    decreases n,
{
    if n < 10 {
        let s = decimal_text(n);
        assert(s.drop_last() =~= Seq::<char>::empty());
        assert(decimal_value(s.drop_last()) == 0);
    } else {
        lemma_decimal_text_denotes(n / 10);
        let s = decimal_text(n);
        assert(s.drop_last() =~= decimal_text(n / 10));
        assert(digit_value(s.last()) == n % 10);
    }
}

/// Tells whether `c` is a decimal digit.
pub fn char_is_digit(c: char) -> (b: bool)
    ensures
        b == is_digit(c),
{
    let n: u32 = c as u32;
    48 <= n && n <= 57
}

/// Appends the shortest decimal text of `n` to `out`.
pub fn push_decimal(out: &mut String, n: u32)
    ensures
        final(out)@ == old(out)@ + decimal_text(n as nat),
    decreases n,
{
    if n >= 10 {
        push_decimal(out, n / 10);
    }
    let d: u8 = (n % 10) as u8;
    let c: char = (d + 48u8) as char;
    assert(c == digit_char((n % 10) as int));
    out.push(c);
    assert(old(out)@ + decimal_text(n as nat) =~= if n < 10 {
        old(out)@.push(c)
    } else {
        (old(out)@ + decimal_text((n / 10) as nat)).push(c)
    });
}

/// The integer that `s` denotes: an optional sign, `+` or `-`, and then at least
/// one decimal digit and nothing else.
pub open spec fn signed_decimal(s: Seq<char>) -> Option<int> {
    let signed = s.len() > 0 && (s[0] == '+' || s[0] == '-');
    let body = if signed { s.skip(1) } else { s };
    if body.len() > 0 && all_digits(body) {
        Some(if signed && s[0] == '-' { -decimal_value(body) } else { decimal_value(body) })
    } else {
        None
    }
}

/// Digits never denote a negative number.
pub proof fn lemma_decimal_value_nonnegative(s: Seq<char>)
    requires
        all_digits(s),
    ensures
        decimal_value(s) >= 0,
    decreases s.len(),
{
    if s.len() > 0 {
        lemma_decimal_value_nonnegative(s.drop_last());
    }
}

/// Reads `v[from..]` as a signed decimal integer and returns it where it lies
/// between zero and `limit`.
pub fn parse_bounded_decimal(v: &Vec<char>, from: usize, limit: u32) -> (r: Option<u32>)
    requires
        from <= v.len(),
    ensures
        match signed_decimal(v@.skip(from as int)) {
            Some(n) => if 0 <= n <= limit { r == Some(n as u32) } else { r is None },
            None => r is None,
        },
{
    let ghost s = v@.skip(from as int);
    let len: usize = v.len();
    if from == len {
        return None;
    }
    let first: char = v[from];
    let signed: bool = first == '+' || first == '-';
    let start: usize = if signed { from + 1 } else { from };
    let ghost body = if signed { s.skip(1) } else { s };
    assert(body =~= v@.skip(start as int));
    if start == len {
        return None;
    }
    let mut acc: u32 = 0;
    let mut over: bool = false;
    let mut i: usize = start;
    while i < len
        invariant
            start <= i <= len,
            len == v.len(),
            body == v@.skip(start as int),
            s == v@.skip(from as int),
            s.len() > 0 && first == s[0],
            signed == (first == '+' || first == '-'),
            body == if signed { s.skip(1) } else { s },
            all_digits(body.take(i - start)),
            !over ==> acc == decimal_value(body.take(i - start)) && acc <= limit,
            over ==> decimal_value(body.take(i - start)) > limit,
        decreases len - i,
    {
        let c: char = v[i];
        let ghost before = body.take(i - start);
        let ghost after = body.take(i + 1 - start);
        assert(after.drop_last() =~= before);
        assert(after.last() == c);
        if !char_is_digit(c) {
            assert(!all_digits(body)) by {
                assert(body[i - start] == c);
            }
            return None;
        }
        proof {
            lemma_decimal_value_nonnegative(before);
        }
        let d: u32 = c as u32 - 48;
        if !over {
            let next: u64 = acc as u64 * 10 + d as u64;
            if next > limit as u64 {
                over = true;
            } else {
                acc = next as u32;
            }
        }
        i += 1;
    }
    assert(body.take(len - start) =~= body);
    if over {
        None
    } else if first == '-' && acc != 0 {
        None
    } else {
        Some(acc)
    }
}

/// Whether `c` is a hexadecimal digit, in either case.
pub open spec fn is_hex_digit(c: char) -> bool {
    '0' <= c <= '9' || 'a' <= c <= 'f' || 'A' <= c <= 'F'
}

/// The value of the hexadecimal digit `c`.
pub open spec fn hex_digit_value(c: char) -> int {
    if '0' <= c <= '9' {
        c as int - '0' as int
    } else if 'a' <= c <= 'f' {
        c as int - 'a' as int + 10
    } else {
        c as int - 'A' as int + 10
    }
}

/// Whether every character of `s` is a hexadecimal digit.
pub open spec fn all_hex_digits(s: Seq<char>) -> bool {
    forall|i: int| 0 <= i < s.len() ==> is_hex_digit(#[trigger] s[i])
}

/// The number that the hexadecimal digits `s` denote.
pub open spec fn hex_value(s: Seq<char>) -> int
    decreases s.len(),
{
    if s.len() == 0 {
        0
    } else {
        hex_value(s.drop_last()) * 16 + hex_digit_value(s.last())
    }
}

/// The integer that `s` denotes in base 16: an optional sign and then at least
/// one hexadecimal digit and nothing else.
pub open spec fn signed_hex(s: Seq<char>) -> Option<int> {
    let signed = s.len() > 0 && (s[0] == '+' || s[0] == '-');
    let body = if signed { s.skip(1) } else { s };
    if body.len() > 0 && all_hex_digits(body) {
        Some(if signed && s[0] == '-' { -hex_value(body) } else { hex_value(body) })
    } else {
        None
    }
}

/// What `s` denotes as a signed 32-bit integer written in base 16, if anything.
pub open spec fn hex_i32(s: Seq<char>) -> Option<int> {
    match signed_hex(s) {
        Some(n) => if i32::MIN <= n <= i32::MAX { Some(n) } else { None },
        None => None,
    }
}

/// The natural number that `s` denotes in base 10: an optional `+` and then at
/// least one digit and nothing else.
pub open spec fn unsigned_decimal(s: Seq<char>) -> Option<int> {
    let body = if s.len() > 0 && s[0] == '+' { s.skip(1) } else { s };
    if body.len() > 0 && all_digits(body) {
        Some(decimal_value(body))
    } else {
        None
    }
}

/// What `s` denotes as a `usize` written in base 10, if anything.
pub open spec fn decimal_usize(s: Seq<char>) -> Option<int> {
    match unsigned_decimal(s) {
        Some(n) => if 0 <= n <= usize::MAX { Some(n) } else { None },
        None => None,
    }
}

/// The hexadecimal digit for `d`, which is below sixteen, in upper case.
pub open spec fn hex_digit_char(d: int) -> char {
    if d < 10 {
        (d + '0' as int) as char
    } else {
        (d - 10 + 'A' as int) as char
    }
}

/// The shortest upper-case hexadecimal text of `n`.
pub open spec fn hex_text(n: nat) -> Seq<char>
    decreases n,
{
    if n < 16 {
        seq![hex_digit_char(n as int)]
    } else {
        hex_text(n / 16).push(hex_digit_char((n % 16) as int))
    }
}

/// `hex_text(n)` with zeros put in front until it has `width` characters.
pub open spec fn padded_hex_text(n: nat, width: nat) -> Seq<char> {
    let digits = hex_text(n);
    if digits.len() < width {
        Seq::new((width - digits.len()) as nat, |i: int| '0') + digits
    } else {
        digits
    }
}

/// Hexadecimal digits never denote a negative number.
pub proof fn lemma_hex_value_nonnegative(s: Seq<char>)
    requires
        all_hex_digits(s),
    ensures
        hex_value(s) >= 0,
    decreases s.len(),
{
    if s.len() > 0 {
        lemma_hex_value_nonnegative(s.drop_last());
    }
}

/// The value of `c` as a hexadecimal digit, if it is one.
pub fn hex_digit_of(c: char) -> (d: Option<u8>)
    ensures
        d is Some <==> is_hex_digit(c),
        d matches Some(x) ==> x == hex_digit_value(c) && x < 16,
{
    let n: u32 = c as u32;
    if 48 <= n && n <= 57 {
        Some((n - 48) as u8)
    } else if 97 <= n && n <= 102 {
        Some((n - 87) as u8)
    } else if 65 <= n && n <= 70 {
        Some((n - 55) as u8)
    } else {
        None
    }
}

/// Reads `v[from..to]` as a signed 32-bit integer written in base 16.
pub fn parse_hex_i32(v: &Vec<char>, from: usize, to: usize) -> (r: Option<i32>)
    requires
        from <= to <= v.len(),
    ensures
        match hex_i32(v@.subrange(from as int, to as int)) {
            Some(n) => r == Some(n as i32),
            None => r is None,
        },
{
    let ghost s = v@.subrange(from as int, to as int);
    if from == to {
        return None;
    }
    let first: char = v[from];
    assert(first == s[0]);
    let signed: bool = first == '+' || first == '-';
    let start: usize = if signed { from + 1 } else { from };
    let ghost body = if signed { s.skip(1) } else { s };
    assert(body =~= v@.subrange(start as int, to as int));
    if start == to {
        return None;
    }
    let bound: u64 = 0x8000_0000;
    let mut acc: u64 = 0;
    let mut over: bool = false;
    let mut i: usize = start;
    while i < to
        invariant
            start <= i <= to <= v.len(),
            body == v@.subrange(start as int, to as int),
            s == v@.subrange(from as int, to as int),
            s.len() > 0 && first == s[0],
            signed == (first == '+' || first == '-'),
            body == if signed { s.skip(1) } else { s },
            bound == 0x8000_0000,
            all_hex_digits(body.take(i - start)),
            !over ==> acc == hex_value(body.take(i - start)) && acc <= bound,
            over ==> hex_value(body.take(i - start)) > bound,
        decreases to - i,
    {
        let c: char = v[i];
        let ghost before = body.take(i - start);
        let ghost after = body.take(i + 1 - start);
        assert(after.drop_last() =~= before);
        assert(after.last() == c);
        proof {
            lemma_hex_value_nonnegative(before);
        }
        match hex_digit_of(c) {
            None => {
                assert(!all_hex_digits(body)) by {
                    assert(body[i - start] == c);
                }
                return None;
            },
            Some(d) => {
                if !over {
                    let next: u64 = acc * 16 + d as u64;
                    if next > bound {
                        over = true;
                    } else {
                        acc = next;
                    }
                }
            },
        }
        i += 1;
    }
    assert(body.take(to - start) =~= body);
    if over {
        None
    } else if first == '-' {
        Some((0 - acc as i64) as i32)
    } else if acc == bound {
        None
    } else {
        Some(acc as i32)
    }
}

/// Reads `v[from..to]` as a `usize` written in base 10.
pub fn parse_usize(v: &Vec<char>, from: usize, to: usize) -> (r: Option<usize>)
    requires
        from <= to <= v.len(),
    ensures
        match decimal_usize(v@.subrange(from as int, to as int)) {
            Some(n) => r == Some(n as usize),
            None => r is None,
        },
{
    let ghost s = v@.subrange(from as int, to as int);
    if from == to {
        return None;
    }
    let first: char = v[from];
    assert(first == s[0]);
    let signed: bool = first == '+';
    let start: usize = if signed { from + 1 } else { from };
    let ghost body = if signed { s.skip(1) } else { s };
    assert(body =~= v@.subrange(start as int, to as int));
    if start == to {
        return None;
    }
    let bound: u128 = usize::MAX as u128;
    let mut acc: u128 = 0;
    let mut over: bool = false;
    let mut i: usize = start;
    while i < to
        invariant
            start <= i <= to <= v.len(),
            body == v@.subrange(start as int, to as int),
            s == v@.subrange(from as int, to as int),
            s.len() > 0 && first == s[0],
            signed == (first == '+'),
            body == if signed { s.skip(1) } else { s },
            bound == usize::MAX,
            all_digits(body.take(i - start)),
            !over ==> acc == decimal_value(body.take(i - start)) && acc <= bound,
            over ==> decimal_value(body.take(i - start)) > bound,
        decreases to - i,
    {
        let c: char = v[i];
        let ghost before = body.take(i - start);
        let ghost after = body.take(i + 1 - start);
        assert(after.drop_last() =~= before);
        assert(after.last() == c);
        if !char_is_digit(c) {
            assert(!all_digits(body)) by {
                assert(body[i - start] == c);
            }
            return None;
        }
        proof {
            lemma_decimal_value_nonnegative(before);
        }
        let d: u128 = (c as u32 - 48) as u128;
        if !over {
            let next: u128 = acc * 10 + d;
            if next > bound {
                over = true;
            } else {
                acc = next;
            }
        }
        i += 1;
    }
    assert(body.take(to - start) =~= body);
    if over {
        None
    } else {
        Some(acc as usize)
    }
}

/// The upper-case hexadecimal digits of `n`.
pub fn hex_chars(n: u64) -> (v: Vec<char>)
    ensures
        v@ == hex_text(n as nat),
    decreases n,
{
    let mut v: Vec<char> = if n >= 16 { hex_chars(n / 16) } else { Vec::new() };
    let d: u8 = (n % 16) as u8;
    let c: char = if d < 10 { (d + 48u8) as char } else { (d + 55u8) as char };
    assert(c == hex_digit_char((n % 16) as int));
    v.push(c);
    assert(v@ =~= hex_text(n as nat));
    v
}

/// Appends `n` in upper-case hexadecimal, at least `width` characters wide.
pub fn push_padded_hex(out: &mut String, n: u64, width: usize)
    ensures
        final(out)@ == old(out)@ + padded_hex_text(n as nat, width as nat),
{
    let digits = hex_chars(n);
    let ghost zeros: Seq<char> = Seq::empty();
    let mut k: usize = digits.len();
    while k < width
        invariant
            digits.len() <= k,
            k <= width || k == digits.len(),
            zeros == Seq::new((k - digits.len()) as nat, |i: int| '0'),
            out@ == old(out)@ + zeros,
        decreases width - k,
    {
        out.push('0');
        k += 1;
        proof {
            let next = Seq::new((k - digits.len()) as nat, |i: int| '0');
            assert(next =~= zeros.push('0'));
            assert(old(out)@ + next =~= (old(out)@ + zeros).push('0'));
            zeros = next;
        }
    }
    let ghost prefix = out@;
    let mut i: usize = 0;
    while i < digits.len()
        invariant
            i <= digits.len(),
            out@ == prefix + digits@.take(i as int),
        decreases digits.len() - i,
    {
        out.push(digits[i]);
        i += 1;
        assert(prefix + digits@.take(i as int) =~= (prefix + digits@.take(i - 1)).push(
            digits@[i - 1],
        ));
    }
    assert(digits@.take(digits.len() as int) =~= digits@);
    assert(out@ =~= old(out)@ + padded_hex_text(n as nat, width as nat));
}

} // verus!
