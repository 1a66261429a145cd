//! Splitting text into lines and whitespace-separated tokens, and recognising
//! decimal integers and floating-point literals, as Rust's `str` does.
use vstd::prelude::*;

verus! {

broadcast use vstd::string::group_string_axioms;

/// The characters of `s`.
pub fn chars_of(s: &str) -> (chars: Vec<char>)
    ensures
        chars@ == s@,
{
    let mut chars: Vec<char> = Vec::new();
    for c in it: s.chars()
        invariant
            chars@ == it.seq().take(it.index()),
            it.seq() == s@,
    {
        chars.push(c);
        assert(chars@ =~= it.seq().take(it.index() + 1));
    }
    chars
}


/// Whether `c` is white space in Unicode's sense (the `White_Space`
/// property), as `char::is_whitespace` decides.
pub open spec fn is_white_space(c: char) -> bool {
    let v = c as u32;
    (0x9 <= v <= 0xd) || v == 0x20 || v == 0x85 || v == 0xa0 || v == 0x1680 || (0x2000 <= v
        <= 0x200a) || v == 0x2028 || v == 0x2029 || v == 0x202f || v == 0x205f || v == 0x3000
}

/// Whether `c` is white space in Unicode's sense.
pub fn is_whitespace(c: char) -> (ws: bool)
    ensures
        ws == is_white_space(c),
{
    let v = c as u32;
    (0x9 <= v && v <= 0xd) || v == 0x20 || v == 0x85 || v == 0xa0 || v == 0x1680 || (0x2000 <= v
        && v <= 0x200a) || v == 0x2028 || v == 0x2029 || v == 0x202f || v == 0x205f || v == 0x3000
}

/// The views of a sequence of character vectors.
pub open spec fn char_seqs(v: Seq<Vec<char>>) -> Seq<Seq<char>> {
    v.map_values(|x: Vec<char>| x@)
}

/// The pieces of `s` between the occurrences of `sep`, the last one included
/// even when it is empty (as `str::split` gives them).
pub open spec fn split_on(s: Seq<char>, sep: char) -> Seq<Seq<char>>
    decreases s.len(),
{
    if s.len() == 0 {
        seq![Seq::empty()]
    } else {
        let r = split_on(s.drop_last(), sep);
        if s.last() == sep {
            r.push(Seq::empty())
        } else {
            r.update(r.len() - 1, r.last().push(s.last()))
        }
    }
}

/// There is always at least one piece.
pub proof fn lemma_split_on_nonempty(s: Seq<char>, sep: char)
    ensures
        split_on(s, sep).len() >= 1,
    decreases s.len(),
{
    if s.len() > 0 {
        lemma_split_on_nonempty(s.drop_last(), sep);
    }
}

/// The maximal runs of non-white-space characters of `s`, in order.
pub open spec fn split_tokens(s: Seq<char>) -> Seq<Seq<char>>
    decreases s.len(),
{
    if s.len() == 0 {
        seq![]
    } else {
        let r = split_tokens(s.drop_last());
        let c = s.last();
        if is_white_space(c) {
            r
        } else if s.len() >= 2 && !is_white_space(s[s.len() - 2]) {
            r.update(r.len() - 1, r.last().push(c))
        } else {
            r.push(seq![c])
        }
    }
}

/// A text that ends in a non-white-space character has a token.
pub proof fn lemma_split_tokens_nonempty(s: Seq<char>)
    requires
        s.len() > 0,
        !is_white_space(s.last()),
    ensures
        split_tokens(s).len() >= 1,
    decreases s.len(),
{
    reveal_with_fuel(split_tokens, 2);
    if s.len() >= 2 && !is_white_space(s[s.len() - 2]) {
        lemma_split_tokens_nonempty(s.drop_last());
    }
}

/// The pieces of `chars` between the occurrences of `sep`.
pub fn split_on_exec(chars: &[char], sep: char) -> (lines: Vec<Vec<char>>)
    ensures
        char_seqs(lines@) == split_on(chars@, sep),
{
    let mut lines: Vec<Vec<char>> = Vec::new();
    lines.push(Vec::new());
    assert(char_seqs(lines@) =~= split_on(chars@.take(0), sep));
    let mut i: usize = 0;
    while i < chars.len()
        invariant
            i <= chars@.len(),
            char_seqs(lines@) == split_on(chars@.take(i as int), sep),
        decreases chars@.len() - i,
    {
        let ghost prefix = chars@.take(i as int);
        proof {
            lemma_split_on_nonempty(prefix, sep);
        }
        let c = chars[i];
        if c == sep {
            lines.push(Vec::new());
        } else {
            let last = lines.len() - 1;
            lines[last].push(c);
        }
        i = i + 1;
        proof {
            assert(chars@.take(i as int).drop_last() =~= prefix);
            assert(char_seqs(lines@) =~= split_on(chars@.take(i as int), sep));
        }
    }
    assert(chars@.take(i as int) =~= chars@);
    lines
}

/// The white-space separated tokens of `chars`.
pub fn split_tokens_exec(chars: &[char]) -> (tokens: Vec<Vec<char>>)
    ensures
        char_seqs(tokens@) == split_tokens(chars@),
{
    let mut tokens: Vec<Vec<char>> = Vec::new();
    assert(char_seqs(tokens@) =~= split_tokens(chars@.take(0)));
    let mut in_token = false;
    let mut i: usize = 0;
    while i < chars.len()
        invariant
            i <= chars@.len(),
            char_seqs(tokens@) == split_tokens(chars@.take(i as int)),
            in_token == (i > 0 && !is_white_space(chars@[i - 1])),
        decreases chars@.len() - i,
    {
        let ghost prefix = chars@.take(i as int);
        let c = chars[i];
        if is_whitespace(c) {
            in_token = false;
        } else if in_token {
            proof {
                lemma_split_tokens_nonempty(prefix);
            }
            let last = tokens.len() - 1;
            tokens[last].push(c);
        } else {
            let mut token: Vec<char> = Vec::new();
            token.push(c);
            tokens.push(token);
            in_token = true;
        }
        i = i + 1;
        proof {
            let next = chars@.take(i as int);
            assert(next.drop_last() =~= prefix);
            assert(next.last() == c);
            if i >= 2 {
                assert(next[next.len() - 2] == chars@[i - 2]);
            }
            assert(char_seqs(tokens@) =~= split_tokens(next));
        }
    }
    assert(chars@.take(i as int) =~= chars@);
    tokens
}

/// Appends `c` to `s` by calling `String::push`, which (by its documentation)
/// appends the character to the end of the string.
#[verifier::external_body]
fn push_char(s: &mut String, c: char)
    ensures
        final(s)@ == old(s)@.push(c),
{
    s.push(c);
}

/// The string made of `chars`.
pub fn string_from_chars(chars: &[char]) -> (s: String)
    ensures
        s@ == chars@,
{
    let mut s = String::new();
    let mut i: usize = 0;
    while i < chars.len()
        invariant
            i <= chars@.len(),
            s@ == chars@.take(i as int),
        decreases chars@.len() - i,
    {
        push_char(&mut s, chars[i]);
        i = i + 1;
        assert(s@ =~= chars@.take(i as int));
    }
    assert(chars@.take(i as int) =~= chars@);
    s
}


/// Whether `c` is one of the ASCII digits 0 to 9.
pub open spec fn is_ascii_digit(c: char) -> bool {
    0x30 <= (c as u32) <= 0x39
}

/// The value of the ASCII digit `c`.
pub open spec fn digit_value(c: char) -> int {
    (c as u32) - 0x30
}

/// Whether every character of `s` is an ASCII digit.
pub open spec fn all_ascii_digits(s: Seq<char>) -> bool {
    forall|i: int| 0 <= i < s.len() ==> is_ascii_digit(#[trigger] s[i])
}

/// The value of the decimal numeral `s`.
pub open spec fn decimal_value(s: Seq<char>) -> int
    decreases s.len(),
{
    if s.len() == 0 {
        0
    } else {
        decimal_value(s.drop_last()) * 10 + digit_value(s.last())
    }
}

/// The digits of an unsigned numeral: `s` without its leading `+`, if any.
pub open spec fn unsigned_digits(s: Seq<char>) -> Seq<char> {
    if s.len() > 0 && s[0] == '+' {
        s.skip(1)
    } else {
        s
    }
}

/// What `str::parse::<usize>` gives for `s`: an optional `+` followed by one
/// or more ASCII digits is read as a decimal numeral, when its value fits a
/// `usize`; anything else is rejected.
pub open spec fn parse_usize_spec(s: Seq<char>) -> Option<usize> {
    let d = unsigned_digits(s);
    if d.len() > 0 && all_ascii_digits(d) && decimal_value(d) <= usize::MAX {
        Some(decimal_value(d) as usize)
    } else {
        None
    }
}

proof fn lemma_decimal_value_grows(s: Seq<char>, k: int)
    requires
        all_ascii_digits(s),
        0 <= k <= s.len(),
    ensures
        0 <= decimal_value(s.take(k)) <= decimal_value(s),
    decreases s.len() - k,
{
    if k < s.len() {
        lemma_decimal_value_grows(s, k + 1);
        assert(s.take(k + 1).drop_last() =~= s.take(k));
        assert(s.take(k + 1).last() == s[k]);
    } else {
        assert(s.take(k) =~= s);
    }
    lemma_decimal_value_nonneg(s.take(k));
}

proof fn lemma_decimal_value_nonneg(s: Seq<char>)
    requires
        all_ascii_digits(s),
    ensures
        decimal_value(s) >= 0,
    decreases s.len(),
{
    if s.len() > 0 {
        assert(all_ascii_digits(s.drop_last())) by {
            assert forall|i: int| 0 <= i < s.len() - 1 implies is_ascii_digit(#[trigger] s.drop_last()[i]) by {
                assert(s.drop_last()[i] == s[i]);
            }
        }
        lemma_decimal_value_nonneg(s.drop_last());
        assert(is_ascii_digit(s[s.len() - 1]));
    }
}

/// Reads `token` as `str::parse::<usize>` does.
pub fn parse_usize(token: &[char]) -> (value: Option<usize>)
    ensures
        value == parse_usize_spec(token@),
{
    let start: usize = if token.len() > 0 && token[0] == '+' { 1 } else { 0 };
    let digits = &token[start..token.len()];
    assert(digits@ =~= unsigned_digits(token@));
    if digits.len() == 0 {
        return None;
    }
    let mut value: usize = 0;
    let mut i: usize = 0;
    while i < digits.len()
        invariant
            i <= digits@.len(),
            digits@ == unsigned_digits(token@),
            digits@.len() > 0,
            all_ascii_digits(digits@.take(i as int)),
            value == decimal_value(digits@.take(i as int)),
        decreases digits@.len() - i,
    {
        let c = digits[i];
        let v = c as u32;
        if v < 0x30 || v > 0x39 {
            assert(!all_ascii_digits(digits@)) by {
                assert(digits@[i as int] == c);
            }
            return None;
        }
        let d = (v - 0x30) as usize;
        let ghost prefix = digits@.take(i as int);
        let ghost next = digits@.take(i + 1);
        proof {
            assert(next.drop_last() =~= prefix);
            assert(next.last() == c);
            assert(all_ascii_digits(next)) by {
                assert forall|j: int| 0 <= j < next.len() implies is_ascii_digit(#[trigger] next[j]) by {
                    if j < i {
                        assert(next[j] == prefix[j]);
                    }
                }
            }
        }
        match value.checked_mul(10) {
            Some(tens) => match tens.checked_add(d) {
                Some(v) => {
                    value = v;
                },
                None => {
                    proof {
                        if all_ascii_digits(digits@) {
                            lemma_decimal_value_grows(digits@, i + 1);
                        }
                    }
                    return None;
                },
            },
            None => {
                proof {
                    if all_ascii_digits(digits@) {
                        lemma_decimal_value_grows(digits@, i + 1);
                        lemma_decimal_value_nonneg(prefix);
                    }
                }
                return None;
            },
        }
        i = i + 1;
    }
    assert(digits@.take(i as int) =~= digits@);
    Some(value)
}


/// Whether `c` is a sign, `+` or `-`.
pub open spec fn is_sign(c: char) -> bool {
    c == '+' || c == '-'
}

/// Whether `s` spells the lower-case ASCII word `word`, ignoring ASCII case.
pub open spec fn eq_ignoring_ascii_case(s: Seq<char>, word: Seq<char>) -> bool {
    &&& s.len() == word.len()
    &&& forall|i: int|
        0 <= i < s.len() ==> (#[trigger] s[i] as u32 == word[i] as u32 || (0x41 <= s[i] as u32 <= 0x5a
            && s[i] as u32 + 32 == word[i] as u32))
}

/// `Number ::= Digit+ | Digit+ '.' Digit* | Digit* '.' Digit+`, the part of a
/// decimal literal before its exponent.
pub open spec fn is_mantissa(m: Seq<char>) -> bool {
    ||| m.len() > 0 && all_ascii_digits(m)
    ||| exists|p: int|
        0 <= p < m.len() && m[p] == '.' && all_ascii_digits(#[trigger] m.take(p)) && all_ascii_digits(
            m.skip(p + 1),
        ) && m.len() >= 2
}

/// `Exp ::= ('e' | 'E') Sign? Digit+`.
pub open spec fn is_exponent(e: Seq<char>) -> bool {
    &&& e.len() >= 2
    &&& (e[0] == 'e' || e[0] == 'E')
    &&& {
        let d = if is_sign(e[1]) { e.skip(2) } else { e.skip(1) };
        d.len() > 0 && all_ascii_digits(d)
    }
}

/// A mantissa, optionally followed by an exponent.
pub open spec fn is_decimal_number(b: Seq<char>) -> bool {
    exists|m: int|
        0 <= m <= b.len() && is_mantissa(#[trigger] b.take(m)) && (m == b.len() || is_exponent(b.skip(m)))
}

/// The text without its leading sign, if any.
pub open spec fn unsigned_part(s: Seq<char>) -> Seq<char> {
    if s.len() > 0 && is_sign(s[0]) {
        s.skip(1)
    } else {
        s
    }
}

/// Whether `str::parse::<f32>` accepts `s`. Its documentation gives the
/// grammar, case-insensitively:
/// `Float ::= Sign? ('inf' | 'infinity' | 'nan' | Number Exp?)`.
pub open spec fn is_float_literal(s: Seq<char>) -> bool {
    let b = unsigned_part(s);
    ||| eq_ignoring_ascii_case(b, seq!['i', 'n', 'f'])
    ||| eq_ignoring_ascii_case(b, seq!['i', 'n', 'f', 'i', 'n', 'i', 't', 'y'])
    ||| eq_ignoring_ascii_case(b, seq!['n', 'a', 'n'])
    ||| is_decimal_number(b)
}

fn is_digit_char(c: char) -> (d: bool)
    ensures
        d == is_ascii_digit(c),
{
    let v = c as u32;
    0x30 <= v && v <= 0x39
}

/// The end of the run of digits of `b` that starts at `from`.
fn digit_run_end(b: &[char], from: usize) -> (end: usize)
    requires
        from <= b@.len(),
    ensures
        from <= end <= b@.len(),
        forall|k: int| from <= k < end ==> is_ascii_digit(#[trigger] b@[k]),
        end == b@.len() || !is_ascii_digit(b@[end as int]),
{
    let mut end = from;
    while end < b.len() && is_digit_char(b[end])
        invariant
            from <= end <= b@.len(),
            forall|k: int| from <= k < end ==> is_ascii_digit(#[trigger] b@[k]),
        decreases b@.len() - end,
    {
        end = end + 1;
    }
    end
}

fn matches_word_ignoring_ascii_case(b: &[char], word: &[char]) -> (m: bool)
    ensures
        m == eq_ignoring_ascii_case(b@, word@),
{
    if b.len() != word.len() {
        return false;
    }
    let mut i: usize = 0;
    while i < b.len()
        invariant
            i <= b@.len(),
            b@.len() == word@.len(),
            forall|j: int|
                0 <= j < i ==> (#[trigger] b@[j] as u32 == word@[j] as u32 || (0x41 <= b@[j] as u32
                    <= 0x5a && b@[j] as u32 + 32 == word@[j] as u32)),
        decreases b@.len() - i,
    {
        let c = b[i] as u32;
        let w = word[i] as u32;
        if !(c == w || (0x41 <= c && c <= 0x5a && c + 32 == w)) {
            return false;
        }
        i = i + 1;
    }
    true
}

fn is_exponent_at(b: &[char], m: usize) -> (e: bool)
    requires
        m <= b@.len(),
    ensures
        e == is_exponent(b@.skip(m as int)),
{
    let ghost rest = b@.skip(m as int);
    if b.len() - m < 2 {
        return false;
    }
    if !(b[m] == 'e' || b[m] == 'E') {
        assert(rest[0] == b@[m as int]);
        return false;
    }
    let mut j = m + 1;
    assert(rest[1] == b@[m + 1]);
    if b[j] == '+' || b[j] == '-' {
        j = j + 1;
    }
    let end = digit_run_end(b, j);
    let ghost d = b@.skip(j as int);
    assert(d =~= (if is_sign(rest[1]) { rest.skip(2) } else { rest.skip(1) }));
    if end == b.len() && end > j {
        assert(all_ascii_digits(d)) by {
            assert forall|k: int| 0 <= k < d.len() implies is_ascii_digit(#[trigger] d[k]) by {
                assert(d[k] == b@[j + k]);
            }
        }
        true
    } else {
        if end < b.len() {
            assert(d[end - j] == b@[end as int]);
        }
        false
    }
}

fn is_decimal_number_exec(b: &[char]) -> (n: bool)
    ensures
        n == is_decimal_number(b@),
{
    let len = b.len();
    let i1 = digit_run_end(b, 0);
    let mut has_dot = false;
    let mut m = i1;
    if i1 < len && b[i1] == '.' {
        has_dot = true;
        m = digit_run_end(b, i1 + 1);
    }
    let mantissa_ok = i1 > 0 || (has_dot && m > i1 + 1);
    let rest_ok = m == len || is_exponent_at(b, m);
    let result = mantissa_ok && rest_ok;
    proof {
        let bs = b@;
        if result {
            let mt = bs.take(m as int);
            if has_dot {
                assert(mt[i1 as int] == '.');
                assert(all_ascii_digits(mt.take(i1 as int))) by {
                    assert forall|k: int| 0 <= k < i1 implies is_ascii_digit(#[trigger] mt.take(i1 as int)[k]) by {
                        assert(mt.take(i1 as int)[k] == bs[k]);
                    }
                }
                assert(all_ascii_digits(mt.skip(i1 + 1))) by {
                    assert forall|k: int| 0 <= k < mt.skip(i1 + 1).len() implies is_ascii_digit(#[trigger] mt.skip(i1 + 1)[k]) by {
                        assert(mt.skip(i1 + 1)[k] == bs[i1 + 1 + k]);
                    }
                }
            } else {
                assert(all_ascii_digits(mt)) by {
                    assert forall|k: int| 0 <= k < mt.len() implies is_ascii_digit(#[trigger] mt[k]) by {
                        assert(mt[k] == bs[k]);
                    }
                }
            }
            assert(is_mantissa(bs.take(m as int)));
        } else {
            assert forall|m2: int| 0 <= m2 <= bs.len() && #[trigger] is_mantissa(bs.take(m2)) implies !(m2
                == bs.len() || is_exponent(bs.skip(m2))) by {
                let mt = bs.take(m2);
                if mt.len() > 0 && all_ascii_digits(mt) {
                    if m2 > i1 {
                        assert(mt[i1 as int] == bs[i1 as int]);
                    }
                    if m2 < i1 {
                        assert(bs.skip(m2)[0] == bs[m2]);
                    } else {
                        if has_dot {
                            assert(bs.skip(m2)[0] == bs[m2]);
                        }
                    }
                } else {
                    let p = choose|p: int|
                        0 <= p < mt.len() && mt[p] == '.' && all_ascii_digits(#[trigger] mt.take(p))
                            && all_ascii_digits(mt.skip(p + 1)) && mt.len() >= 2;
                    if p > i1 {
                        assert(mt.take(p)[i1 as int] == bs[i1 as int]);
                    }
                    if p < i1 {
                        assert(mt[p] == bs[p]);
                    }
                    assert(p == i1);
                    assert(has_dot);
                    if m2 > m {
                        assert(mt.skip(p + 1)[m - p - 1] == bs[m as int]);
                    }
                    if m2 < m {
                        assert(bs.skip(m2)[0] == bs[m2]);
                    }
                }
            }
        }
    }
    result
}

/// Whether `token` reads as a floating-point number, as `str::parse::<f32>`
/// decides.
pub fn is_float_literal_exec(token: &[char]) -> (f: bool)
    ensures
        f == is_float_literal(token@),
{
    let start: usize = if token.len() > 0 && (token[0] == '+' || token[0] == '-') { 1 } else { 0 };
    let b = &token[start..token.len()];
    assert(b@ =~= unsigned_part(token@));
    let inf = ['i', 'n', 'f'];
    let infinity = ['i', 'n', 'f', 'i', 'n', 'i', 't', 'y'];
    let nan = ['n', 'a', 'n'];
    assert(inf@ =~= seq!['i', 'n', 'f']);
    assert(infinity@ =~= seq!['i', 'n', 'f', 'i', 'n', 'i', 't', 'y']);
    assert(nan@ =~= seq!['n', 'a', 'n']);
    matches_word_ignoring_ascii_case(b, inf.as_slice()) || matches_word_ignoring_ascii_case(
        b,
        infinity.as_slice(),
    ) || matches_word_ignoring_ascii_case(b, nan.as_slice()) || is_decimal_number_exec(b)
}


/// The white-space separated tokens of each line of `s`: how
/// `str::lines` followed by `str::trim` and `str::split_whitespace` see a text
/// (a line's carriage return and surrounding blanks are white space).
pub open spec fn text_lines(s: Seq<char>) -> Seq<Seq<Seq<char>>> {
    split_on(s, '\n').map_values(|l: Seq<char>| split_tokens(l))
}

/// The views of a sequence of token lists.
pub open spec fn token_lines(v: Seq<Vec<Vec<char>>>) -> Seq<Seq<Seq<char>>> {
    v.map_values(|l: Vec<Vec<char>>| char_seqs(l@))
}

/// The tokens of each line of `text`.
pub fn tokenize_lines(text: &str) -> (lines: Vec<Vec<Vec<char>>>)
    ensures
        token_lines(lines@) == text_lines(text@),
{
    let chars = chars_of(text);
    let raw = split_on_exec(chars.as_slice(), '\n');
    let mut lines: Vec<Vec<Vec<char>>> = Vec::new();
    let mut i: usize = 0;
    while i < raw.len()
        invariant
            i <= raw@.len(),
            char_seqs(raw@) == split_on(text@, '\n'),
            lines@.len() == i,
            token_lines(lines@) == split_on(text@, '\n').take(i as int).map_values(|l: Seq<char>| split_tokens(l)),
        decreases raw@.len() - i,
    {
        let ghost before = lines@;
        let tokens = split_tokens_exec(raw[i].as_slice());
        proof {
            assert(char_seqs(raw@)[i as int] == raw@[i as int]@);
            assert(char_seqs(tokens@) == split_tokens(split_on(text@, '\n')[i as int]));
        }
        lines.push(tokens);
        i = i + 1;
        proof {
            assert(lines@ == before.push(tokens));
            assert(token_lines(lines@)[i - 1] == char_seqs(tokens@));
            let sp = split_on(text@, '\n');
            assert forall|j: int| 0 <= j < i - 1 implies #[trigger] token_lines(lines@)[j] == split_tokens(sp[j]) by {
                assert(token_lines(before)[j] == sp.take(i - 1).map_values(|l: Seq<char>| split_tokens(l))[j]);
                assert(lines@[j] == before[j]);
            }
            assert(token_lines(lines@) =~= split_on(text@, '\n').take(i as int).map_values(|l: Seq<char>| split_tokens(l)));
        }
    }
    assert(split_on(text@, '\n').take(i as int) =~= split_on(text@, '\n'));
    lines
}

/// Whether `token` is the word `word`.
pub fn is_word(token: &[char], word: &[char]) -> (same: bool)
    ensures
        same == (token@ == word@),
{
    if token.len() != word.len() {
        return false;
    }
    let mut i: usize = 0;
    while i < token.len()
        invariant
            i <= token@.len(),
            token@.len() == word@.len(),
            forall|j: int| 0 <= j < i ==> token@[j] == word@[j],
        decreases token@.len() - i,
    {
        if token[i] != word[i] {
            return false;
        }
        i = i + 1;
    }
    assert(token@ =~= word@);
    true
}

/// Whether a line with tokens `t` carries nothing: it is blank, or it is a
/// comment, its first token starting with `#`.
pub open spec fn is_blank_or_comment(t: Seq<Seq<char>>) -> bool {
    t.len() == 0 || (t[0].len() > 0 && t[0][0] == '#')
}

/// Whether a line with tokens `t` is blank or a comment.
pub fn blank_or_comment(t: &Vec<Vec<char>>) -> (skip: bool)
    ensures
        skip == is_blank_or_comment(char_seqs(t@)),
{
    t.len() == 0 || (t[0].len() > 0 && t[0][0] == '#')
}

/// The tokens among `ts` that read as floating-point numbers, in order.
pub open spec fn float_tokens(ts: Seq<Seq<char>>) -> Seq<Seq<char>>
    decreases ts.len(),
{
    if ts.len() == 0 {
        seq![]
    } else {
        let r = float_tokens(ts.drop_last());
        if is_float_literal(ts.last()) {
            r.push(ts.last())
        } else {
            r
        }
    }
}

/// The tokens of `ts`, from the `from`-th on, that read as floating-point
/// numbers, in order.
pub fn float_tokens_exec(ts: &Vec<Vec<char>>, from: usize) -> (floats: Vec<Vec<char>>)
    requires
        from <= ts@.len(),
    ensures
        char_seqs(floats@) == float_tokens(char_seqs(ts@).skip(from as int)),
{
    let mut floats: Vec<Vec<char>> = Vec::new();
    let mut i: usize = from;
    let ghost all = char_seqs(ts@).skip(from as int);
    assert(all.take(0) =~= seq![]);
    while i < ts.len()
        invariant
            from <= i <= ts@.len(),
            all == char_seqs(ts@).skip(from as int),
            char_seqs(floats@) == float_tokens(all.take(i - from)),
        decreases ts@.len() - i,
    {
        let ghost prefix = all.take(i - from);
        if is_float_literal_exec(ts[i].as_slice()) {
            let copy = copy_chars(ts[i].as_slice());
            floats.push(copy);
        }
        i = i + 1;
        proof {
            let next = all.take(i - from);
            assert(next.drop_last() =~= prefix);
            assert(next.last() == ts@[i - 1]@);
            assert(char_seqs(floats@) =~= float_tokens(next));
        }
    }
    assert(all.take(i - from) =~= all);
    floats
}

/// A copy of `chars`.
pub fn copy_chars(chars: &[char]) -> (copy: Vec<char>)
    ensures
        copy@ == chars@,
{
    let mut copy: Vec<char> = Vec::new();
    let mut k: usize = 0;
    while k < chars.len()
        invariant
            k <= chars@.len(),
            copy@ == chars@.take(k as int),
        decreases chars@.len() - k,
    {
        copy.push(chars[k]);
        k = k + 1;
        assert(copy@ =~= chars@.take(k as int));
    }
    assert(copy@ =~= chars@);
    copy
}

} // verus!
