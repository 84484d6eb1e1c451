//! Character-level building blocks of the line grammar: whitespace-separated
//! words, comma-separated fields and unsigned numerals.
use vstd::prelude::*;

verus! {

pub open spec fn is_blank(c: char) -> bool {
    c == ' ' || c == '\t' || c == '\r' || c == '\n'
}

/// How many characters `s` starts with before its first blank.
pub open spec fn word_len(s: Seq<char>) -> nat
    decreases s.len(),
{
    if s.len() == 0 || is_blank(s[0]) {
        0
    } else {
        1 + word_len(s.drop_first())
    }
}

/// How many characters `s` starts with before its first comma.
pub open spec fn field_len(s: Seq<char>) -> nat
    decreases s.len(),
{
    if s.len() == 0 || s[0] == ',' {
        0
    } else {
        1 + field_len(s.drop_first())
    }
}

/// The maximal runs of non-blank characters of `s`, in order.
pub open spec fn words(s: Seq<char>) -> Seq<Seq<char>>
    decreases s.len() via words_decreases
{
    if s.len() == 0 {
        Seq::empty()
    } else if is_blank(s[0]) {
        words(s.drop_first())
    } else {
        let n = word_len(s);
        seq![s.take(n as int)] + words(s.skip(n as int))
    }
}

pub proof fn lemma_word_len_bound(s: Seq<char>)
    ensures
        word_len(s) <= s.len(),
        s.len() > 0 && !is_blank(s[0]) ==> word_len(s) >= 1,
    decreases s.len(),
{
    if s.len() > 0 && !is_blank(s[0]) {
        lemma_word_len_bound(s.drop_first());
    }
}

#[via_fn]
proof fn words_decreases(s: Seq<char>) {
    lemma_word_len_bound(s);
}

/// The pieces of `s` between its commas: one more piece than `s` has commas.
pub open spec fn fields(s: Seq<char>) -> Seq<Seq<char>>
    decreases s.len(),
{
    let n = field_len(s);
    if n >= s.len() {
        seq![s]
    } else {
        seq![s.take(n as int)] + fields(s.skip(n + 1 as int))
    }
}

/// Whether `t` holds no parenthesis.
pub open spec fn has_no_paren(t: Seq<char>) -> bool {
    forall|i: int| 0 <= i < t.len() ==> #[trigger] t[i] != '(' && t[i] != ')'
}

pub open spec fn is_dec_digit(c: char) -> bool {
    '0' <= c <= '9'
}

pub open spec fn is_hex_digit(c: char) -> bool {
    is_dec_digit(c) || ('a' <= c <= 'f') || ('A' <= c <= 'F')
}

/// Whether `c` is a digit of base `base` (16, or else 10).
pub open spec fn is_digit_in(c: char, base: nat) -> bool {
    if base == 16 {
        is_hex_digit(c)
    } else {
        is_dec_digit(c)
    }
}

pub open spec fn digit_value(c: char) -> nat {
    if is_dec_digit(c) {
        (c as u32 - '0' as u32) as nat
    } else if 'a' <= c <= 'f' {
        (c as u32 - 'a' as u32 + 10) as nat
    } else {
        (c as u32 - 'A' as u32 + 10) as nat
    }
}

pub open spec fn all_digits_in(s: Seq<char>, base: nat) -> bool {
    forall|i: int| 0 <= i < s.len() ==> is_digit_in(#[trigger] s[i], base)
}

/// The number that the digits of `s` spell in base `base`, most significant first.
pub open spec fn digits_value(s: Seq<char>, base: nat) -> nat
    decreases s.len(),
{
    if s.len() == 0 {
        0
    } else {
        digits_value(s.drop_last(), base) * base + digit_value(s.last())
    }
}

/// A prefix of a numeral never spells a larger number than the whole.
pub proof fn lemma_digits_value_prefix(s: Seq<char>, k: int, base: nat)
    requires
        0 <= k <= s.len(),
        base >= 1,
    ensures
        digits_value(s.take(k), base) <= digits_value(s, base),
    decreases s.len(),
{
    if k == s.len() {
        assert(s.take(k) =~= s);
    } else {
        lemma_digits_value_prefix(s.drop_last(), k, base);
        assert(s.drop_last().take(k) =~= s.take(k));
        let v = digits_value(s.drop_last(), base);
        assert(v * base >= v) by (nonlinear_arith)
            requires
                base >= 1,
        ;
    }
}

pub fn is_blank_char(c: char) -> (r: bool)
    ensures
        r == is_blank(c),
{
    c == ' ' || c == '\t' || c == '\r' || c == '\n'
}

/// The characters of `line`, one by one.
pub fn chars_of(line: &str) -> (r: Vec<char>)
    ensures
        r@ == line@,
{
    let n = line.unicode_len();
    let mut r: Vec<char> = Vec::new();
    let mut i: usize = 0;
    while i < n
        invariant
            n == line@.len(),
            i <= n,
            r@ == line@.take(i as int),
        decreases n - i,
    {
        r.push(line.get_char(i));
        i = i + 1;
        assert(r@ =~= line@.take(i as int));
    }
    assert(line@.take(n as int) =~= line@);
    r
}

/// The end of the run of non-blank characters that starts at `from`, stopping at `to`.
pub fn scan_word(s: &Vec<char>, from: usize, to: usize) -> (r: usize)
    requires
        from <= to <= s@.len(),
    ensures
        from <= r <= to,
        r - from == word_len(s@.subrange(from as int, to as int)),
{
    let mut j: usize = from;
    while j < to && !is_blank_char(s[j])
        invariant
            from <= j <= to <= s@.len(),
            word_len(s@.subrange(from as int, to as int)) == (j - from) + word_len(
                s@.subrange(j as int, to as int),
            ),
        decreases to - j,
    {
        assert(s@.subrange(j as int, to as int).drop_first() =~= s@.subrange(j + 1, to as int));
        j = j + 1;
    }
    j
}

/// The end of the run of non-comma characters that starts at `from`, stopping at `to`.
pub fn scan_field(s: &Vec<char>, from: usize, to: usize) -> (r: usize)
    requires
        from <= to <= s@.len(),
    ensures
        from <= r <= to,
        r - from == field_len(s@.subrange(from as int, to as int)),
{
    let mut j: usize = from;
    while j < to && s[j] != ','
        invariant
            from <= j <= to <= s@.len(),
            field_len(s@.subrange(from as int, to as int)) == (j - from) + field_len(
                s@.subrange(j as int, to as int),
            ),
        decreases to - j,
    {
        assert(s@.subrange(j as int, to as int).drop_first() =~= s@.subrange(j + 1, to as int));
        j = j + 1;
    }
    j
}

/// The pieces of `s` that a list of half-open spans marks out.
pub open spec fn spans_text(s: Seq<char>, spans: Seq<(usize, usize)>) -> Seq<Seq<char>> {
    spans.map_values(|p: (usize, usize)| s.subrange(p.0 as int, p.1 as int))
}

pub open spec fn spans_within(spans: Seq<(usize, usize)>, lo: int, hi: int) -> bool {
    forall|k: int| 0 <= k < spans.len() ==> lo <= (#[trigger] spans[k]).0 <= spans[k].1 <= hi
}

/// The spans of the words of `s`.
pub fn split_words(s: &Vec<char>) -> (r: Vec<(usize, usize)>)
    ensures
        spans_within(r@, 0, s@.len() as int),
        spans_text(s@, r@) == words(s@),
{
    let n = s.len();
    let mut r: Vec<(usize, usize)> = Vec::new();
    let mut i: usize = 0;
    assert(s@.subrange(0, n as int) =~= s@);
    while i < n
        invariant
            n == s@.len(),
            i <= n,
            spans_within(r@, 0, n as int),
            words(s@) == spans_text(s@, r@) + words(s@.subrange(i as int, n as int)),
        decreases n - i,
    {
        let rest = Ghost(s@.subrange(i as int, n as int));
        if is_blank_char(s[i]) {
            assert(rest@.drop_first() =~= s@.subrange(i + 1, n as int));
            i = i + 1;
        } else {
            let j = scan_word(s, i, n);
            assert(rest@.drop_first() =~= s@.subrange(i + 1, n as int));
            assert(rest@.take((j - i) as int) =~= s@.subrange(i as int, j as int));
            assert(rest@.skip((j - i) as int) =~= s@.subrange(j as int, n as int));
            let ghost before = r@;
            r.push((i, j));
            assert(spans_text(s@, r@) =~= spans_text(s@, before).push(
                s@.subrange(i as int, j as int),
            ));
            i = j;
        }
    }
    assert(s@.subrange(n as int, n as int) =~= Seq::<char>::empty());
    assert(spans_text(s@, r@) + Seq::<Seq<char>>::empty() =~= spans_text(s@, r@));
    r
}

/// Whether `s[lo..hi]` holds no parenthesis.
pub fn span_has_no_paren(s: &Vec<char>, lo: usize, hi: usize) -> (r: bool)
    requires
        lo <= hi <= s@.len(),
    ensures
        r == has_no_paren(s@.subrange(lo as int, hi as int)),
{
    let mut i: usize = lo;
    while i < hi
        invariant
            lo <= i <= hi <= s@.len(),
            forall|k: int| lo <= k < i ==> s@[k] != '(' && s@[k] != ')',
        decreases hi - i,
    {
        if s[i] == '(' || s[i] == ')' {
            assert(s@.subrange(lo as int, hi as int)[i - lo] == s@[i as int]);
            return false;
        }
        i = i + 1;
    }
    assert forall|k: int| 0 <= k < hi - lo implies #[trigger] s@.subrange(lo as int, hi as int)[k]
        != '(' && s@.subrange(lo as int, hi as int)[k] != ')' by {
        assert(s@.subrange(lo as int, hi as int)[k] == s@[lo + k]);
    }
    true
}

/// The spans of the comma-separated pieces of `s[lo..hi]`.
pub fn split_fields(s: &Vec<char>, lo: usize, hi: usize) -> (r: Vec<(usize, usize)>)
    requires
        lo <= hi <= s@.len(),
    ensures
        spans_within(r@, lo as int, hi as int),
        spans_text(s@, r@) == fields(s@.subrange(lo as int, hi as int)),
{
    let mut r: Vec<(usize, usize)> = Vec::new();
    let mut i: usize = lo;
    loop
        invariant
            lo <= i <= hi <= s@.len(),
            spans_within(r@, lo as int, hi as int),
            fields(s@.subrange(lo as int, hi as int)) == spans_text(s@, r@) + fields(
                s@.subrange(i as int, hi as int),
            ),
        decreases hi - i,
    {
        let rest = Ghost(s@.subrange(i as int, hi as int));
        let j = scan_field(s, i, hi);
        let ghost before = r@;
        r.push((i, j));
        assert(spans_text(s@, r@) =~= spans_text(s@, before).push(
            s@.subrange(i as int, j as int),
        ));
        if j == hi {
            assert(rest@ =~= s@.subrange(i as int, j as int));
            return r;
        }
        assert(rest@.take((j - i) as int) =~= s@.subrange(i as int, j as int));
        assert(rest@.skip((j - i) + 1 as int) =~= s@.subrange(j + 1, hi as int));
        i = j + 1;
    }
}

/// The number that `t` spells in base `base`, when every character of `t` is a
/// digit of that base and the number fits in a `u32`.
pub open spec fn numeral_value(t: Seq<char>, base: nat) -> Option<u32> {
    if all_digits_in(t, base) && digits_value(t, base) <= u32::MAX {
        Some(digits_value(t, base) as u32)
    } else {
        None
    }
}

pub fn digit_of(c: char, base: u64) -> (r: Option<u64>)
    requires
        base == 10 || base == 16,
    ensures
        r == (if is_digit_in(c, base as nat) {
            Some(digit_value(c) as u64)
        } else {
            None
        }),
        r matches Some(d) ==> d < base,
{
    if '0' <= c && c <= '9' {
        Some((c as u32 - '0' as u32) as u64)
    } else if base == 16 && 'a' <= c && c <= 'f' {
        Some((c as u32 - 'a' as u32 + 10) as u64)
    } else if base == 16 && 'A' <= c && c <= 'F' {
        Some((c as u32 - 'A' as u32 + 10) as u64)
    } else {
        None
    }
}

/// The number that `s[lo..hi]` spells in base `base` (10 or 16).
pub fn parse_numeral(s: &Vec<char>, lo: usize, hi: usize, base: u64) -> (r: Option<u32>)
    requires
        lo <= hi <= s@.len(),
        base == 10 || base == 16,
    ensures
        r == numeral_value(s@.subrange(lo as int, hi as int), base as nat),
{
    let ghost t = s@.subrange(lo as int, hi as int);
    let mut acc: u64 = 0;
    let mut i: usize = lo;
    while i < hi
        invariant
            lo <= i <= hi <= s@.len(),
            base == 10 || base == 16,
            t == s@.subrange(lo as int, hi as int),
            all_digits_in(s@.subrange(lo as int, i as int), base as nat),
            acc == digits_value(s@.subrange(lo as int, i as int), base as nat),
            acc <= u32::MAX,
        decreases hi - i,
    {
        let ghost prefix = s@.subrange(lo as int, i + 1);
        assert(prefix.drop_last() =~= s@.subrange(lo as int, i as int));
        assert(prefix.last() == s@[i as int]);
        assert(t[i - lo] == s@[i as int]);
        match digit_of(s[i], base) {
            None => {
                return None;
            },
            Some(d) => {
                assert(acc * base <= 0xffff_ffff * 16) by (nonlinear_arith)
                    requires
                        acc <= 0xffff_ffff,
                        base <= 16,
                ;
                let next: u64 = acc * base + d;
                assert(all_digits_in(prefix, base as nat));
                if next > 0xffff_ffff {
                    proof {
                        if all_digits_in(t, base as nat) {
                            assert(t.take(i + 1 - lo) =~= prefix);
                            lemma_digits_value_prefix(t, i + 1 - lo, base as nat);
                        }
                    }
                    return None;
                }
                acc = next;
                i = i + 1;
            },
        }
    }
    Some(acc as u32)
}

} // verus!
