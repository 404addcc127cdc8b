use vstd::prelude::*;
use vstd::std_specs::iter::IteratorSpec;

verus! {

/// White space, as Unicode's White_Space property has it: the characters that separate
/// tokens on a line and that trimming removes.
pub open spec fn is_blank(c: char) -> bool {
    ('\t' <= c && c <= '\r') || c == ' ' || c == '\u{85}' || c == '\u{a0}' || c == '\u{1680}'
        || ('\u{2000}' <= c && c <= '\u{200a}') || c == '\u{2028}' || c == '\u{2029}' || c
        == '\u{202f}' || c == '\u{205f}' || c == '\u{3000}'
}

pub open spec fn is_digit(c: char) -> bool {
    '0' <= c && c <= '9'
}

pub open spec fn digit_value(c: char) -> nat {
    (c as u32 - '0' as u32) as nat
}

pub fn probe_digit(c: char) -> (r: Option<u32>)
    ensures
        r is Some <==> is_digit(c),
        r is Some ==> r->0 == digit_value(c),
{
    if c >= '0' && c <= '9' {
        Some(c as u32 - '0' as u32)
    } else {
        None
    }
}

pub fn chars_of(t: &str) -> (r: Vec<char>)
    ensures
        r@ == t@,
{
    let mut it = t.chars();
    let mut v: Vec<char> = Vec::new();
    proof {
        vstd::string::axiom_spec_iter(t);
    }
    loop
        invariant
            v@ + it.remaining() == t@,
            it.decrease() is Some,
        ensures
            v@ == t@,
        decreases it.decrease()->0,
    {
        proof {
            broadcast use vstd::string::next_postcondition;
        }
        match it.next() {
            Some(c) => {
                v.push(c);
            },
            None => {
                assert(v@ + it.remaining() =~= v@);
                break;
            },
        }
    }
    v
}



/// The kinds of character runs that the line grammars are made of.
#[derive(Clone, Copy, Debug, PartialEq, Eq, Structural)]
pub enum CharClass {
    Blank,
    Word,
    Digit,
    Numeral,
}

pub open spec fn in_class(c: char, k: CharClass) -> bool {
    match k {
        CharClass::Blank => is_blank(c),
        CharClass::Word => !is_blank(c),
        CharClass::Digit => is_digit(c),
        CharClass::Numeral => is_digit(c) || c == '.',
    }
}

/// The index just past the run of `k` characters that starts at `i`.
pub open spec fn run_end(s: Seq<char>, i: int, k: CharClass) -> int
    decreases s.len() - i,
{
    if 0 <= i < s.len() && in_class(s[i], k) {
        run_end(s, i + 1, k)
    } else {
        i
    }
}

/// The index of the first `c` at or after `i`, or the length when there is none.
pub open spec fn index_of(s: Seq<char>, c: char, i: int) -> int
    decreases s.len() - i,
{
    if 0 <= i < s.len() && s[i] != c {
        index_of(s, c, i + 1)
    } else {
        i
    }
}

/// The index just past the last non-blank character at or after `lo` and before `j`.
pub open spec fn trim_back(s: Seq<char>, lo: int, j: int) -> int
    decreases j - lo,
{
    if lo < j && is_blank(s[j - 1]) {
        trim_back(s, lo, j - 1)
    } else {
        j
    }
}

/// `s` without blanks at either end.
pub open spec fn trim(s: Seq<char>) -> Seq<char> {
    let a = run_end(s, 0, CharClass::Blank);
    s.subrange(a, trim_back(s, a, s.len() as int))
}

pub open spec fn occurs_at(s: Seq<char>, p: Seq<char>, i: int) -> bool {
    0 <= i && i + p.len() <= s.len() && s.subrange(i, i + p.len()) == p
}

pub open spec fn contains(s: Seq<char>, p: Seq<char>) -> bool {
    exists|i: int| occurs_at(s, p, i)
}

/// The number that a run of decimal digits spells.
pub open spec fn digits_value(s: Seq<char>) -> nat
    decreases s.len(),
{
    if s.len() == 0 {
        0
    } else {
        digits_value(s.drop_last()) * 10 + digit_value(s.last())
    }
}

pub open spec fn all_digits(s: Seq<char>) -> bool {
    forall|i: int| 0 <= i < s.len() ==> is_digit(#[trigger] s[i])
}

pub open spec fn digit_char(d: nat) -> char {
    if d == 0 { '0' }
    else if d == 1 { '1' }
    else if d == 2 { '2' }
    else if d == 3 { '3' }
    else if d == 4 { '4' }
    else if d == 5 { '5' }
    else if d == 6 { '6' }
    else if d == 7 { '7' }
    else if d == 8 { '8' }
    else { '9' }
}

/// The decimal spelling of `n`, without leading zeros.
pub open spec fn nat_text(n: nat) -> Seq<char>
    decreases n,
{
    if n < 10 {
        seq![digit_char(n)]
    } else {
        nat_text(n / 10).push(digit_char(n % 10))
    }
}

/// Digits as `nat_text` writes them: at least one, and no leading zero unless alone.
pub open spec fn is_canonical_number(s: Seq<char>) -> bool {
    &&& s.len() > 0
    &&& all_digits(s)
    &&& (s[0] == '0' ==> s.len() == 1)
}

pub proof fn lemma_run_end_bounds(s: Seq<char>, i: int, k: CharClass)
    requires
        0 <= i <= s.len(),
    ensures
        i <= run_end(s, i, k) <= s.len(),
        forall|j: int| i <= j < run_end(s, i, k) ==> in_class(#[trigger] s[j], k),
        run_end(s, i, k) < s.len() ==> !in_class(s[run_end(s, i, k)], k),
    decreases s.len() - i,
{
    if i < s.len() && in_class(s[i], k) {
        lemma_run_end_bounds(s, i + 1, k);
    }
}

pub proof fn lemma_index_of_bounds(s: Seq<char>, c: char, i: int)
    requires
        0 <= i <= s.len(),
    ensures
        i <= index_of(s, c, i) <= s.len(),
        forall|j: int| i <= j < index_of(s, c, i) ==> #[trigger] s[j] != c,
        index_of(s, c, i) < s.len() ==> s[index_of(s, c, i)] == c,
    decreases s.len() - i,
{
    if i < s.len() && s[i] != c {
        lemma_index_of_bounds(s, c, i + 1);
    }
}

/// Relies on String::push: appends one character to the string.
#[verifier::external_body]
pub(crate) fn push_char(s: &mut String, c: char)
    ensures
        final(s)@ == old(s)@.push(c),
{
    s.push(c)
}

pub fn class_has(c: char, k: CharClass) -> (r: bool)
    ensures
        r == in_class(c, k),
{
    let blank = (c >= '\t' && c <= '\r') || c == ' ' || c == '\u{85}' || c == '\u{a0}' || c
        == '\u{1680}' || (c >= '\u{2000}' && c <= '\u{200a}') || c == '\u{2028}' || c
        == '\u{2029}' || c == '\u{202f}' || c == '\u{205f}' || c == '\u{3000}';
    let digit = c >= '0' && c <= '9';
    match k {
        CharClass::Blank => blank,
        CharClass::Word => !blank,
        CharClass::Digit => digit,
        CharClass::Numeral => digit || c == '.',
    }
}

/// Moves past the run of `k` characters that starts at `i`.
pub fn scan(s: &Vec<char>, i: usize, k: CharClass) -> (j: usize)
    requires
        i <= s.len(),
    ensures
        j == run_end(s@, i as int, k),
        i <= j <= s.len(),
{
    let mut j = i;
    while j < s.len() && class_has(s[j], k)
        invariant
            i <= j <= s.len(),
            run_end(s@, j as int, k) == run_end(s@, i as int, k),
        decreases s.len() - j,
    {
        j = j + 1;
    }
    j
}

/// The index of the first `c` at or after `i`, or the length when there is none.
pub fn find_char(s: &Vec<char>, c: char, i: usize) -> (j: usize)
    requires
        i <= s.len(),
    ensures
        j == index_of(s@, c, i as int),
        i <= j <= s.len(),
{
    let mut j = i;
    while j < s.len() && s[j] != c
        invariant
            i <= j <= s.len(),
            index_of(s@, c, j as int) == index_of(s@, c, i as int),
        decreases s.len() - j,
    {
        j = j + 1;
    }
    j
}

/// Where the blanks at the end of `s[lo..j]` begin.
pub fn scan_back(s: &Vec<char>, lo: usize, j: usize) -> (r: usize)
    requires
        lo <= j <= s.len(),
    ensures
        r == trim_back(s@, lo as int, j as int),
        lo <= r <= j,
{
    let mut r = j;
    while lo < r && class_has(s[r - 1], CharClass::Blank)
        invariant
            lo <= r <= j <= s.len(),
            trim_back(s@, lo as int, r as int) == trim_back(s@, lo as int, j as int),
        decreases r,
    {
        r = r - 1;
    }
    r
}

/// Whether `p` stands in `s` at index `i`.
pub fn occurs_at_exec(s: &Vec<char>, p: &Vec<char>, i: usize) -> (r: bool)
    ensures
        r == occurs_at(s@, p@, i as int),
{
    if i > s.len() || p.len() > s.len() - i {
        return false;
    }
    let mut k: usize = 0;
    while k < p.len()
        invariant
            i + p.len() <= s.len(),
            k <= p.len(),
            forall|m: int| 0 <= m < k ==> s@[i + m] == p@[m],
        decreases p.len() - k,
    {
        if s[i + k] != p[k] {
            assert(s@.subrange(i as int, i + p.len())[k as int] != p@[k as int]);
            return false;
        }
        k = k + 1;
    }
    assert(s@.subrange(i as int, i + p.len()) =~= p@);
    true
}

/// Whether `p` stands anywhere in `s` at or after `from`.
pub fn contains_from(s: &Vec<char>, p: &Vec<char>, from: usize) -> (r: bool)
    requires
        from <= s.len(),
    ensures
        r == contains(s@.subrange(from as int, s.len() as int), p@),
{
    let ghost t = s@.subrange(from as int, s.len() as int);
    let mut i = from;
    loop
        invariant
            from <= i <= s.len(),
            t == s@.subrange(from as int, s.len() as int),
            forall|m: int| 0 <= m < i - from ==> !occurs_at(t, p@, m),
        ensures
            forall|m: int| 0 <= m <= s.len() - from ==> !occurs_at(t, p@, m),
        decreases s.len() - i,
    {
        if occurs_at_exec(s, p, i) {
            assert(t.subrange(i - from, i - from + p.len()) =~= s@.subrange(i as int, i + p.len()));
            assert(occurs_at(t, p@, i - from));
            return true;
        }
        proof {
            if i - from + p.len() <= t.len() {
                assert(t.subrange(i - from, i - from + p.len()) =~= s@.subrange(i as int, i + p.len()));
            }
        }
        if i == s.len() {
            break;
        }
        i = i + 1;
    }
    assert forall|m: int| !occurs_at(t, p@, m) by {
        if 0 <= m && m + p.len() <= t.len() {
            assert(m <= s.len() - from);
        }
    }
    false
}

/// The characters of `s[a..b]` as a string.
pub fn string_of(s: &Vec<char>, a: usize, b: usize) -> (r: String)
    requires
        a <= b <= s.len(),
    ensures
        r@ == s@.subrange(a as int, b as int),
{
    let mut r = String::new();
    let mut i = a;
    while i < b
        invariant
            a <= i <= b <= s.len(),
            r@ == s@.subrange(a as int, i as int),
        decreases b - i,
    {
        push_char(&mut r, s[i]);
        assert(s@.subrange(a as int, i + 1) =~= s@.subrange(a as int, i as int).push(s@[i as int]));
        i = i + 1;
    }
    r
}

/// The number that `s[a..b]` spells, when it is all digits and at most `max`.
pub fn parse_number(s: &Vec<char>, a: usize, b: usize, max: u32) -> (r: Option<u32>)
    requires
        a <= b <= s.len(),
    ensures
        r is Some <==> (a < b && all_digits(s@.subrange(a as int, b as int))
            && digits_value(s@.subrange(a as int, b as int)) <= max),
        r is Some ==> r->0 == digits_value(s@.subrange(a as int, b as int)),
{
    if a == b {
        return None;
    }
    let mut acc: u32 = 0;
    let mut i = a;
    while i < b
        invariant
            a <= i <= b <= s.len(),
            all_digits(s@.subrange(a as int, i as int)),
            acc == digits_value(s@.subrange(a as int, i as int)),
            acc <= max,
        decreases b - i,
    {
        let ghost before = s@.subrange(a as int, i as int);
        assert(s@.subrange(a as int, i + 1).drop_last() =~= before);
        let c = s[i];
        if !(c >= '0' && c <= '9') {
            assert(!all_digits(s@.subrange(a as int, b as int))) by {
                assert(s@.subrange(a as int, b as int)[i - a] == c);
            }
            return None;
        }
        let d = c as u32 - '0' as u32;
        if d > max || acc > (max - d) / 10 {
            assert(acc * 10 + d > max) by (nonlinear_arith)
                requires
                    d > max || acc > (max - d) / 10,
                    d <= 9,
            ;
            proof {
                lemma_digits_prefix_le(s@.subrange(a as int, b as int), i + 1 - a);
                assert(s@.subrange(a as int, b as int).subrange(0, i + 1 - a) =~= s@.subrange(a as int, i + 1));
            }
            return None;
        }
        acc = acc * 10 + d;
        i = i + 1;
        assert(all_digits(s@.subrange(a as int, i as int))) by {
            assert forall|m: int| 0 <= m < i - a implies is_digit(#[trigger] s@.subrange(a as int, i as int)[m]) by {
                if m < i - 1 - a {
                    assert(s@.subrange(a as int, i as int)[m] == before[m]);
                }
            }
        }
    }
    Some(acc)
}

/// A longer run of digits never spells a smaller number than its prefix.
pub proof fn lemma_digits_prefix_le(s: Seq<char>, n: int)
    requires
        0 <= n <= s.len(),
    ensures
        digits_value(s.subrange(0, n)) <= digits_value(s),
    decreases s.len() - n,
{
    if n < s.len() {
        lemma_digits_prefix_le(s, n + 1);
        assert(s.subrange(0, n + 1).drop_last() =~= s.subrange(0, n));
        let x = digits_value(s.subrange(0, n));
        assert(x <= x * 10 + digit_value(s[n])) by (nonlinear_arith);
    } else {
        assert(s.subrange(0, n) =~= s);
    }
}

/// Appends the decimal spelling of `n`.
pub fn push_number(s: &mut String, n: u32)
    ensures
        final(s)@ == old(s)@ + nat_text(n as nat),
    decreases n,
{
    if n >= 10 {
        push_number(s, n / 10);
    }
    let d = n % 10;
    let c = if d == 0 { '0' }
        else if d == 1 { '1' }
        else if d == 2 { '2' }
        else if d == 3 { '3' }
        else if d == 4 { '4' }
        else if d == 5 { '5' }
        else if d == 6 { '6' }
        else if d == 7 { '7' }
        else if d == 8 { '8' }
        else { '9' };
    push_char(s, c);
    proof {
        if n >= 10 {
            assert(nat_text(n as nat) == nat_text((n / 10) as nat).push(digit_char((n % 10) as nat)));
        }
    }
}

/// Appends the characters of `t`.
pub fn push_text(s: &mut String, t: &str)
    ensures
        final(s)@ == old(s)@ + t@,
{
    s.append(t);
}
/// A copy of `s[a..b]`.
pub fn slice_of(s: &Vec<char>, a: usize, b: usize) -> (r: Vec<char>)
    requires
        a <= b <= s.len(),
    ensures
        r@ == s@.subrange(a as int, b as int),
{
    let mut r: Vec<char> = Vec::new();
    let mut i = a;
    while i < b
        invariant
            a <= i <= b <= s.len(),
            r@ == s@.subrange(a as int, i as int),
        decreases b - i,
    {
        r.push(s[i]);
        assert(s@.subrange(a as int, i + 1) =~= s@.subrange(a as int, i as int).push(s@[i as int]));
        i = i + 1;
    }
    r
}

/// `a` sorts no later than `b`: character by character, by code point, a prefix first.
pub open spec fn text_le(a: Seq<char>, b: Seq<char>) -> bool
    decreases a.len(),
{
    if a.len() == 0 {
        true
    } else if b.len() == 0 {
        false
    } else if a[0] < b[0] {
        true
    } else if a[0] > b[0] {
        false
    } else {
        text_le(a.drop_first(), b.drop_first())
    }
}

pub proof fn lemma_text_le_total(a: Seq<char>, b: Seq<char>)
    ensures
        text_le(a, b) || text_le(b, a),
    decreases a.len(),
{
    if a.len() > 0 && b.len() > 0 && a[0] == b[0] {
        lemma_text_le_total(a.drop_first(), b.drop_first());
    }
}

pub proof fn lemma_text_le_trans(a: Seq<char>, b: Seq<char>, c: Seq<char>)
    requires
        text_le(a, b),
        text_le(b, c),
    ensures
        text_le(a, c),
    decreases a.len(),
{
    if a.len() > 0 && b.len() > 0 && c.len() > 0 && a[0] == b[0] && b[0] == c[0] {
        lemma_text_le_trans(a.drop_first(), b.drop_first(), c.drop_first());
    }
}

/// Whether `a` sorts no later than `b`.
pub fn text_le_exec(a: &str, b: &str) -> (r: bool)
    ensures
        r == text_le(a@, b@),
{
    let x = chars_of(a);
    let y = chars_of(b);
    let mut i: usize = 0;
    assert(x@.skip(0) =~= x@ && y@.skip(0) =~= y@);
    while i < x.len() && i < y.len() && x[i] == y[i]
        invariant
            i <= x.len(),
            i <= y.len(),
            text_le(x@, y@) == text_le(x@.skip(i as int), y@.skip(i as int)),
        decreases x.len() - i,
    {
        assert(x@.skip(i as int).drop_first() =~= x@.skip(i + 1));
        assert(y@.skip(i as int).drop_first() =~= y@.skip(i + 1));
        i = i + 1;
    }
    if i == x.len() {
        assert(x@.skip(i as int).len() == 0);
        true
    } else if i == y.len() {
        assert(y@.skip(i as int).len() == 0);
        false
    } else {
        assert(x@.skip(i as int)[0] == x@[i as int]);
        assert(y@.skip(i as int)[0] == y@[i as int]);
        x[i] < y[i]
    }
}

pub proof fn lemma_digit_char(c: char)
    requires
        is_digit(c),
    ensures
        digit_value(c) < 10,
        digit_char(digit_value(c)) == c,
{
}

proof fn lemma_digits_value_positive(s: Seq<char>)
    requires
        s.len() > 0,
        all_digits(s),
        s[0] != '0',
    ensures
        digits_value(s) >= 1,
    decreases s.len(),
{
    if s.len() > 1 {
        lemma_digits_value_positive(s.drop_last());
    }
}

/// Digits without a leading zero are spelled back as they were written.
pub proof fn lemma_nat_text_of_digits(s: Seq<char>)
    requires
        is_canonical_number(s),
    ensures
        nat_text(digits_value(s)) == s,
    decreases s.len(),
{
    lemma_digit_char(s.last());
    if s.len() == 1 {
        assert(s.drop_last().len() == 0);
        assert(digits_value(s.drop_last()) == 0);
        assert(digits_value(s) == digit_value(s[0]));
        assert(nat_text(digit_value(s[0])) == seq![digit_char(digit_value(s[0]))]);
        assert(seq![s[0]] =~= s);
    } else {
        let t = s.drop_last();
        assert(is_canonical_number(t));
        lemma_nat_text_of_digits(t);
        lemma_digits_value_positive(t);
        let v = digits_value(s);
        let d = digit_value(s.last());
        assert(v == digits_value(t) * 10 + d);
        assert(v / 10 == digits_value(t) && v % 10 == d && v >= 10) by (nonlinear_arith)
            requires
                v == digits_value(t) * 10 + d,
                d < 10,
                digits_value(t) >= 1,
        ;
        assert(nat_text(v) == nat_text(v / 10).push(digit_char(v % 10)));
        assert(t.push(s.last()) =~= s);
    }
}

/// Where `s` begins and ends once blanks at either end are left out.
pub fn trim_range(s: &Vec<char>) -> (r: (usize, usize))
    ensures
        r.0 <= r.1 <= s.len(),
        s@.subrange(r.0 as int, r.1 as int) == trim(s@),
{
    let a = scan(s, 0, CharClass::Blank);
    let b = scan_back(s, a, s.len());
    (a, b)
}

pub open spec fn string_views(v: Seq<String>) -> Seq<Seq<char>> {
    v.map_values(|s: String| s@)
}

/// Whether `s[a..b]` is the text `lit`.
pub fn range_is(s: &Vec<char>, a: usize, b: usize, lit: &str) -> (r: bool)
    requires
        a <= b <= s.len(),
    ensures
        r == (s@.subrange(a as int, b as int) == lit@),
{
    let p = chars_of(lit);
    if b - a != p.len() {
        return false;
    }
    occurs_at_exec(s, &p, a)
}

/// The digits of an unsigned number: what follows one optional `+`.
pub open spec fn unsigned_digits(s: Seq<char>) -> Seq<char> {
    if s.len() > 0 && s[0] == '+' {
        s.drop_first()
    } else {
        s
    }
}

/// The number that `s` spells: at least one digit, after one optional `+`.
pub open spec fn unsigned_value(s: Seq<char>) -> Option<nat> {
    let d = unsigned_digits(s);
    if d.len() > 0 && all_digits(d) {
        Some(digits_value(d))
    } else {
        None
    }
}

/// The number that `s[a..b]` spells, when it is one and is at most `max`.
pub fn parse_unsigned(s: &Vec<char>, a: usize, b: usize, max: u32) -> (r: Option<u32>)
    requires
        a <= b <= s.len(),
    ensures
        r is Some <==> (unsigned_value(s@.subrange(a as int, b as int)) matches Some(n) && n
            <= max),
        r matches Some(n) ==> unsigned_value(s@.subrange(a as int, b as int)) == Some(n as nat),
{
    let mut from = a;
    if a < b && s[a] == '+' {
        from = a + 1;
    }
    assert(s@.subrange(from as int, b as int) =~= unsigned_digits(s@.subrange(a as int, b as int)));
    parse_number(s, from, b, max)
}

} // verus!
