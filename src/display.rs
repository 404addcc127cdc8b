use vstd::prelude::*;

use crate::cursor::LineCursor;
use crate::text::{
    chars_of, contains, contains_from, digits_value, find_char, index_of, is_canonical_number,
    is_digit, lemma_nat_text_of_digits, lemma_run_end_bounds, nat_text, occurs_at, occurs_at_exec,
    parse_number, push_number, push_text, range_is, run_end, scan, scan_back, string_of,
    string_views, trim_back, CharClass,
};

verus! {

/// How an output is rotated or mirrored.
#[derive(Clone, Copy, Debug, PartialEq, Eq, Structural)]
pub enum Transform {
    Normal,
    Roate90,
    Roate180,
    Roate270,
    Flipped,
}

impl Transform {
    /// The name that the display tool uses for this transform.
    pub open spec fn spec_name(self) -> Seq<char> {
        match self {
            Transform::Normal => "normal"@,
            Transform::Roate90 => "90"@,
            Transform::Roate180 => "180"@,
            Transform::Roate270 => "270"@,
            Transform::Flipped => "flipped"@,
        }
    }

    /// The transform that the display tool calls `s`, if any.
    pub open spec fn spec_from_name(s: Seq<char>) -> Option<Transform> {
        if s == "normal"@ {
            Some(Transform::Normal)
        } else if s == "90"@ {
            Some(Transform::Roate90)
        } else if s == "180"@ {
            Some(Transform::Roate180)
        } else if s == "270"@ {
            Some(Transform::Roate270)
        } else if s == "flipped"@ {
            Some(Transform::Flipped)
        } else {
            None
        }
    }

    pub fn as_str(&self) -> (r: &'static str)
        ensures
            r@ == self.spec_name(),
    {
        match self {
            Transform::Normal => "normal",
            Transform::Roate90 => "90",
            Transform::Roate180 => "180",
            Transform::Roate270 => "270",
            Transform::Flipped => "flipped",
        }
    }

    pub fn from_str(s: &str) -> (r: Option<Transform>)
        ensures
            r == Transform::spec_from_name(s@),
    {
        let v = chars_of(s);
        assert(v@.subrange(0, v.len() as int) =~= s@);
        transform_in(&v, 0, v.len())
    }
}

impl Default for Transform {
    fn default() -> (r: Transform)
        ensures
            r == Transform::Normal,
    {
        Transform::Normal
    }
}

/// The transform named by `s[a..b]`.
fn transform_in(s: &Vec<char>, a: usize, b: usize) -> (r: Option<Transform>)
    requires
        a <= b <= s.len(),
    ensures
        r == Transform::spec_from_name(s@.subrange(a as int, b as int)),
{
    if range_is(s, a, b, "normal") {
        Some(Transform::Normal)
    } else if range_is(s, a, b, "90") {
        Some(Transform::Roate90)
    } else if range_is(s, a, b, "180") {
        Some(Transform::Roate180)
    } else if range_is(s, a, b, "270") {
        Some(Transform::Roate270)
    } else if range_is(s, a, b, "flipped") {
        Some(Transform::Flipped)
    } else {
        None
    }
}

/// A decimal number as the display tool writes it: digits with at most one point,
/// at least one digit.
pub open spec fn is_decimal(s: Seq<char>) -> bool {
    &&& forall|i: int| 0 <= i < s.len() ==> is_digit(#[trigger] s[i]) || s[i] == '.'
    &&& exists|i: int| 0 <= i < s.len() && is_digit(#[trigger] s[i])
    &&& forall|i: int, j: int|
        0 <= i < s.len() && 0 <= j < s.len() && #[trigger] s[i] == '.' && #[trigger] s[j] == '.'
            ==> i == j
}

/// A decimal number above zero.
pub open spec fn is_positive_decimal(s: Seq<char>) -> bool {
    is_decimal(s) && exists|i: int| 0 <= i < s.len() && is_digit(#[trigger] s[i]) && s[i] != '0'
}

/// Whether `s[a..b]` is a decimal number, and whether it is above zero.
pub fn decimal_in(s: &Vec<char>, a: usize, b: usize) -> (r: (bool, bool))
    requires
        a <= b <= s.len(),
    ensures
        r.0 == is_decimal(s@.subrange(a as int, b as int)),
        r.1 == is_positive_decimal(s@.subrange(a as int, b as int)),
{
    let ghost t = s@.subrange(a as int, b as int);
    let mut i = a;
    let mut digit_at: Option<usize> = None;
    let mut nonzero_at: Option<usize> = None;
    let mut point_at: Option<usize> = None;
    while i < b
        invariant
            a <= i <= b <= s.len(),
            t == s@.subrange(a as int, b as int),
            forall|m: int| 0 <= m < i - a ==> is_digit(#[trigger] t[m]) || t[m] == '.',
            digit_at is Some <==> exists|m: int| 0 <= m < i - a && is_digit(#[trigger] t[m]),
            digit_at is Some ==> a <= digit_at->0 < i && is_digit(t[digit_at->0 - a]),
            nonzero_at is Some <==> exists|m: int|
                0 <= m < i - a && is_digit(#[trigger] t[m]) && t[m] != '0',
            nonzero_at is Some ==> a <= nonzero_at->0 < i && is_digit(t[nonzero_at->0 - a])
                && t[nonzero_at->0 - a] != '0',
            point_at is Some <==> exists|m: int| 0 <= m < i - a && #[trigger] t[m] == '.',
            point_at is Some ==> a <= point_at->0 < i && t[point_at->0 - a] == '.',
            forall|m: int, n: int|
                0 <= m < i - a && 0 <= n < i - a && #[trigger] t[m] == '.' && #[trigger] t[n]
                    == '.' ==> m == n,
        decreases b - i,
    {
        let c = s[i];
        assert(t[i - a] == c);
        if c >= '0' && c <= '9' {
            if digit_at.is_none() {
                digit_at = Some(i);
            }
            if c != '0' && nonzero_at.is_none() {
                nonzero_at = Some(i);
            }
        } else if c == '.' {
            if point_at.is_some() {
                let p = point_at.unwrap();
                assert(t[p - a] == '.' && t[i - a] == '.');
                return (false, false);
            }
            point_at = Some(i);
        } else {
            return (false, false);
        }
        i = i + 1;
    }
    let dec = digit_at.is_some();
    (dec, dec && nonzero_at.is_some())
}

/// The words of a line: maximal runs of non-blank characters, from index `i` on.
pub open spec fn tokens_from(s: Seq<char>, i: int) -> Seq<Seq<char>>
    decreases s.len() - i,
{
    if i < 0 || i >= s.len() {
        seq![]
    } else {
        let a = run_end(s, i, CharClass::Blank);
        let b = run_end(s, a, CharClass::Word);
        if a >= s.len() || a < i || b <= a || b > s.len() {
            seq![]
        } else {
            seq![s.subrange(a, b)] + tokens_from(s, b)
        }
    }
}

/// Words joined by single spaces.
pub open spec fn join_spaced(ts: Seq<Seq<char>>) -> Seq<char>
    decreases ts.len(),
{
    if ts.len() == 0 {
        seq![]
    } else if ts.len() == 1 {
        ts[0]
    } else {
        join_spaced(ts.drop_last()) + seq![' '] + ts.last()
    }
}

proof fn lemma_token_step(s: Seq<char>, i: int)
    requires
        0 <= i <= s.len(),
    ensures
        ({
            let a = run_end(s, i, CharClass::Blank);
            let b = run_end(s, a, CharClass::Word);
            &&& i <= a <= s.len()
            &&& a == s.len() ==> tokens_from(s, i) == Seq::<Seq<char>>::empty()
            &&& a < s.len() ==> a < b <= s.len() && tokens_from(s, i) == seq![s.subrange(a, b)]
                + tokens_from(s, b)
        }),
{
    lemma_run_end_bounds(s, i, CharClass::Blank);
    let a = run_end(s, i, CharClass::Blank);
    lemma_run_end_bounds(s, a, CharClass::Word);
    if a < s.len() {
        lemma_run_end_bounds(s, a + 1, CharClass::Word);
    }
}

/// The first word of a line, and the other words joined by single spaces.
pub open spec fn header_of(l: Seq<char>) -> Option<(Seq<char>, Seq<char>)> {
    let ts = tokens_from(l, 0);
    if ts.len() == 0 {
        None
    } else {
        Some((ts[0], join_spaced(ts.skip(1))))
    }
}

fn parse_header(l: &Vec<char>) -> (r: Option<(String, String)>)
    ensures
        r is Some <==> header_of(l@) is Some,
        r matches Some((n, d)) ==> header_of(l@) == Some((n@, d@)),
{
    proof {
        lemma_token_step(l@, 0);
    }
    let a = scan(l, 0, CharClass::Blank);
    if a >= l.len() {
        return None;
    }
    let b = scan(l, a, CharClass::Word);
    let name = string_of(l, a, b);
    let mut description = String::new();
    let ghost mut done: Seq<Seq<char>> = seq![];
    let mut i = b;
    let mut any = false;
    loop
        invariant
            b <= i <= l.len(),
            any == (done.len() > 0),
            tokens_from(l@, 0) == seq![name@] + done + tokens_from(l@, i as int),
            description@ == join_spaced(done),
        ensures
            tokens_from(l@, 0) == seq![name@] + done,
            description@ == join_spaced(done),
        decreases l.len() - i,
    {
        proof {
            lemma_token_step(l@, i as int);
        }
        let a = scan(l, i, CharClass::Blank);
        if a >= l.len() {
            assert(seq![name@] + done + tokens_from(l@, i as int) =~= seq![name@] + done);
            break;
        }
        let b = scan(l, a, CharClass::Word);
        let word = string_of(l, a, b);
        if any {
            crate::text::push_text(&mut description, " ");
        }
        crate::text::push_text(&mut description, word.as_str());
        proof {
            let old_done = done;
            done = done.push(word@);
            assert(done.drop_last() =~= old_done);
            assert(seq![name@] + old_done + (seq![word@] + tokens_from(l@, b as int)) =~= seq![
                name@,
            ] + done + tokens_from(l@, b as int));
            if old_done.len() > 0 {
                reveal_strlit(" ");
                assert(description@ =~= join_spaced(old_done) + seq![' '] + word@);
            } else {
                assert(description@ =~= word@);
            }
        }
        i = b;
        any = true;
    }
    assert((seq![name@] + done).skip(1) =~= done);
    Some((name, description))
}

/// The text after the first colon of a line, without white space at either end.
pub open spec fn label_value(l: Seq<char>) -> Option<Seq<char>> {
    let k = index_of(l, ':', 0);
    if k < l.len() {
        let a = run_end(l, k + 1, CharClass::Blank);
        Some(l.subrange(a, trim_back(l, a, l.len() as int)))
    } else {
        None
    }
}

/// The text after the first colon of a line as it stands there, up to the end of the line
/// without its trailing white space.
pub open spec fn raw_label_value(l: Seq<char>) -> Option<Seq<char>> {
    let k = index_of(l, ':', 0);
    if k < l.len() {
        Some(l.subrange(k + 1, trim_back(l, k + 1, l.len() as int)))
    } else {
        None
    }
}

/// Where the verbatim value of a `label: value` line stands.
fn raw_value_range(l: &Vec<char>) -> (r: Option<(usize, usize)>)
    ensures
        r is Some <==> raw_label_value(l@) is Some,
        r matches Some((a, b)) ==> a <= b <= l.len() && raw_label_value(l@) == Some(
            l@.subrange(a as int, b as int),
        ),
{
    let k = find_char(l, ':', 0);
    if k >= l.len() {
        return None;
    }
    let b = scan_back(l, k + 1, l.len());
    Some((k + 1, b))
}

/// Where the value of a `label: value` line stands.
fn label_value_range(l: &Vec<char>) -> (r: Option<(usize, usize)>)
    ensures
        r is Some <==> label_value(l@) is Some,
        r matches Some((a, b)) ==> a <= b <= l.len() && label_value(l@) == Some(
            l@.subrange(a as int, b as int),
        ),
{
    let k = find_char(l, ':', 0);
    if k >= l.len() {
        return None;
    }
    let a = scan(l, k + 1, CharClass::Blank);
    let b = scan_back(l, a, l.len());
    Some((a, b))
}

/// What a mode line says: resolution, refresh rate, and whether it is the active mode.
pub open spec fn mode_line(l: Seq<char>) -> Option<(Seq<char>, Seq<char>, bool)> {
    let a = run_end(l, 0, CharClass::Blank);
    let b = run_end(l, a, CharClass::Word);
    let c = b + " px, "@.len();
    let d = run_end(l, c, CharClass::Numeral);
    if b > a && occurs_at(l, " px, "@, b) && is_decimal(l.subrange(c, d)) && occurs_at(
        l,
        " Hz"@,
        d,
    ) {
        Some(
            (
                l.subrange(a, b),
                l.subrange(c, d),
                contains(l.subrange(d + " Hz"@.len(), l.len() as int), "current"@),
            ),
        )
    } else {
        None
    }
}

/// A supported mode of an output.
pub struct Resolution {
    pub resolution: String,
    pub refresh: String,
}

impl View for Resolution {
    type V = (Seq<char>, Seq<char>);

    open spec fn view(&self) -> (Seq<char>, Seq<char>) {
        (self.resolution@, self.refresh@)
    }
}

impl Clone for Resolution {
    fn clone(&self) -> (r: Resolution)
        ensures
            r@ == self@,
    {
        Resolution { resolution: self.resolution.clone(), refresh: self.refresh.clone() }
    }
}

fn parse_mode_line(l: &Vec<char>) -> (r: Option<(Resolution, bool)>)
    ensures
        r is Some <==> mode_line(l@) is Some,
        r matches Some((m, cur)) ==> mode_line(l@) == Some((m.resolution@, m.refresh@, cur)),
{
    let a = scan(l, 0, CharClass::Blank);
    let b = scan(l, a, CharClass::Word);
    let px = chars_of(" px, ");
    if b <= a || !occurs_at_exec(l, &px, b) {
        return None;
    }
    let c = b + px.len();
    let d = scan(l, c, CharClass::Numeral);
    let hz = chars_of(" Hz");
    if !decimal_in(l, c, d).0 || !occurs_at_exec(l, &hz, d) {
        return None;
    }
    let current = contains_from(l, &chars_of("current"), d + hz.len());
    Some((Resolution { resolution: string_of(l, a, b), refresh: string_of(l, c, d) }, current))
}

/// The digits of the two coordinates on a position line.
pub open spec fn position_digits(l: Seq<char>) -> Option<(Seq<char>, Seq<char>)> {
    let k = index_of(l, ':', 0);
    let a = run_end(l, k + 1, CharClass::Blank);
    let b = run_end(l, a, CharClass::Digit);
    let d = run_end(l, b + 1, CharClass::Digit);
    if k < l.len() && a < b && b < l.len() && l[b] == ',' && b + 1 < d && run_end(
        l,
        d,
        CharClass::Blank,
    ) == l.len() {
        Some((l.subrange(a, b), l.subrange(b + 1, d)))
    } else {
        None
    }
}

/// The position a position line gives, when both coordinates fit in 16 bits.
pub open spec fn position_of(l: Seq<char>) -> Option<(u16, u16)> {
    match position_digits(l) {
        Some((x, y)) => if digits_value(x) <= 65535 && digits_value(y) <= 65535 {
            Some((digits_value(x) as u16, digits_value(y) as u16))
        } else {
            None
        },
        None => None,
    }
}

fn parse_position(l: &Vec<char>) -> (r: Option<(u16, u16)>)
    ensures
        r == position_of(l@),
{
    let k = find_char(l, ':', 0);
    if k >= l.len() {
        return None;
    }
    let a = scan(l, k + 1, CharClass::Blank);
    let b = scan(l, a, CharClass::Digit);
    if !(a < b && b < l.len() && l[b] == ',') {
        return None;
    }
    let d = scan(l, b + 1, CharClass::Digit);
    if !(b + 1 < d && scan(l, d, CharClass::Blank) == l.len()) {
        return None;
    }
    proof {
        lemma_run_end_bounds(l@, a as int, CharClass::Digit);
        lemma_run_end_bounds(l@, (b + 1) as int, CharClass::Digit);
        assert(crate::text::all_digits(l@.subrange(a as int, b as int)));
        assert(crate::text::all_digits(l@.subrange(b + 1, d as int)));
    }
    let x = parse_number(l, a, b, 65535);
    let y = parse_number(l, b + 1, d, 65535);
    match (x, y) {
        (Some(x), Some(y)) => Some((x as u16, y as u16)),
        _ => None,
    }
}

/// What an output holds, as values.
pub struct OutputView {
    pub name: Seq<char>,
    pub description: Seq<char>,
    pub physical_size: Seq<char>,
    pub enabled: bool,
    pub modes: Seq<(Seq<char>, Seq<char>)>,
    pub now_mode: Option<(Seq<char>, Seq<char>)>,
    pub position: (u16, u16),
    pub transform: Transform,
    pub scale: Seq<char>,
}

/// One output of the compositor: what the display tool reports of it, and what the
/// user has chosen for it since.
pub struct Output {
    pub name: String,
    pub description: String,
    pub physical_size: String,
    pub enabled: bool,
    /// Supported resolution and refresh pairs, in the order listed.
    pub modes: Vec<Resolution>,
    /// The active pair; `None` until one is known.
    pub now_mode: Option<Resolution>,
    pub position: (u16, u16),
    pub transform: Transform,
    /// The scale factor as a decimal number.
    pub scale: String,
}

pub open spec fn mode_views(ms: Seq<Resolution>) -> Seq<(Seq<char>, Seq<char>)> {
    ms.map_values(|m: Resolution| m@)
}

pub open spec fn option_view(m: Option<Resolution>) -> Option<(Seq<char>, Seq<char>)> {
    match m {
        Some(m) => Some(m@),
        None => None,
    }
}

impl View for Output {
    type V = OutputView;

    open spec fn view(&self) -> OutputView {
        OutputView {
            name: self.name@,
            description: self.description@,
            physical_size: self.physical_size@,
            enabled: self.enabled,
            modes: mode_views(self.modes@),
            now_mode: option_view(self.now_mode),
            position: self.position,
            transform: self.transform,
            scale: self.scale@,
        }
    }
}

impl Clone for Output {
    fn clone(&self) -> (r: Output)
        ensures
            r@ == self@,
    {
        let mut modes: Vec<Resolution> = Vec::new();
        let mut i: usize = 0;
        while i < self.modes.len()
            invariant
                i <= self.modes.len(),
                mode_views(modes@) == mode_views(self.modes@.subrange(0, i as int)),
            decreases self.modes.len() - i,
        {
            let c = self.modes[i].clone();
            let ghost before = modes@;
            modes.push(c);
            assert(mode_views(modes@) =~= mode_views(before).push(self.modes@[i as int]@));
            assert(mode_views(self.modes@.subrange(0, i + 1)) =~= mode_views(
                self.modes@.subrange(0, i as int),
            ).push(self.modes@[i as int]@));
            i = i + 1;
        }
        assert(self.modes@.subrange(0, i as int) =~= self.modes@);
        let now_mode = match &self.now_mode {
            Some(m) => Some(m.clone()),
            None => None,
        };
        Output {
            name: self.name.clone(),
            description: self.description.clone(),
            physical_size: self.physical_size.clone(),
            enabled: self.enabled,
            modes,
            now_mode,
            position: (self.position.0, self.position.1),
            transform: self.transform,
            scale: self.scale.clone(),
        }
    }
}

/// The index of the first line at or after `i` that is not a mode line.
pub open spec fn modes_end(ls: Seq<Seq<char>>, i: int) -> int
    decreases ls.len() - i,
{
    if 0 <= i < ls.len() && mode_line(ls[i]) is Some {
        modes_end(ls, i + 1)
    } else {
        i
    }
}

/// The resolution and refresh rate of a mode line.
pub open spec fn mode_pair(l: Seq<char>) -> (Seq<char>, Seq<char>) {
    match mode_line(l) {
        Some((r, f, _)) => (r, f),
        None => (seq![], seq![]),
    }
}

/// Whether a mode line marks its mode as the active one.
pub open spec fn marks_current(l: Seq<char>) -> bool {
    match mode_line(l) {
        Some((_, _, c)) => c,
        None => false,
    }
}

/// The last mode among the lines `lo..j` that is marked as the active one.
pub open spec fn active_mode(ls: Seq<Seq<char>>, lo: int, j: int) -> Option<(Seq<char>, Seq<char>)>
    decreases j - lo,
{
    if lo < j {
        if marks_current(ls[j - 1]) {
            Some(mode_pair(ls[j - 1]))
        } else {
            active_mode(ls, lo, j - 1)
        }
    } else {
        None
    }
}

pub open spec fn header_name(l: Seq<char>) -> Seq<char> {
    match header_of(l) {
        Some((n, _)) => n,
        None => seq![],
    }
}

pub open spec fn header_description(l: Seq<char>) -> Seq<char> {
    match header_of(l) {
        Some((_, d)) => d,
        None => seq![],
    }
}

/// The output that the record at the head of `ls` describes, and the number of lines
/// it takes. A record is a header line, a physical size line, an enabled line, one
/// line that is skipped, the mode lines, then a position, a transform and a scale line.
pub open spec fn record_of(ls: Seq<Seq<char>>) -> Option<(OutputView, int)> {
    let m = modes_end(ls, 4);
    if ls.len() < 4 || m < 4 || m + 3 > ls.len() {
        None
    } else if header_of(ls[0]) is Some && raw_label_value(ls[1]) is Some && label_value(ls[2]) is Some
        && position_of(ls[m]) is Some && label_value(ls[m + 1]) is Some && Transform::spec_from_name(
        label_value(ls[m + 1])->0,
    ) is Some && label_value(ls[m + 2]) is Some && is_positive_decimal(label_value(ls[m + 2])->0) {
        Some(
            (
                OutputView {
                    name: header_name(ls[0]),
                    description: header_description(ls[0]),
                    physical_size: raw_label_value(ls[1])->0,
                    enabled: label_value(ls[2])->0 == "yes"@,
                    modes: ls.subrange(4, m).map_values(|l: Seq<char>| mode_pair(l)),
                    now_mode: active_mode(ls, 4, m),
                    position: position_of(ls[m])->0,
                    transform: Transform::spec_from_name(label_value(ls[m + 1])->0)->0,
                    scale: label_value(ls[m + 2])->0,
                },
                m + 3,
            ),
        )
    } else {
        None
    }
}

proof fn lemma_skip_step(ls: Seq<Seq<char>>, k: int)
    requires
        0 <= k < ls.len(),
    ensures
        ls.skip(k).len() > 0,
        ls.skip(k)[0] == ls[k],
        ls.skip(k).drop_first() == ls.skip(k + 1),
{
    assert(ls.skip(k).drop_first() =~= ls.skip(k + 1));
}

proof fn lemma_modes_end_bounds(ls: Seq<Seq<char>>, i: int)
    requires
        0 <= i <= ls.len(),
    ensures
        i <= modes_end(ls, i) <= ls.len(),
    decreases ls.len() - i,
{
    if i < ls.len() && mode_line(ls[i]) is Some {
        lemma_modes_end_bounds(ls, i + 1);
    }
}

/// Reads one output record from the cursor.
pub fn parse_output(cur: &mut LineCursor) -> (r: Option<Output>)
    ensures
        record_of(old(cur)@) is None ==> r is None,
        record_of(old(cur)@) matches Some((o, n)) ==> r matches Some(out) && out@ == o
            && final(cur)@ == old(cur)@.skip(n),
{
    let ghost ls = cur@;
    proof {
        assert(ls.skip(0) =~= ls);
    }
    let h = match cur.next() {
        Some(l) => l,
        None => return None,
    };
    proof {
        lemma_skip_step(ls, 0);
    }
    let (name, description) = match parse_header(&h) {
        Some(x) => x,
        None => return None,
    };
    let l1 = match cur.next() {
        Some(l) => l,
        None => return None,
    };
    proof {
        lemma_skip_step(ls, 1);
    }
    let physical_size = match raw_value_range(&l1) {
        Some((a, b)) => string_of(&l1, a, b),
        None => return None,
    };
    let l2 = match cur.next() {
        Some(l) => l,
        None => return None,
    };
    proof {
        lemma_skip_step(ls, 2);
    }
    let enabled = match label_value_range(&l2) {
        Some((a, b)) => range_is(&l2, a, b, "yes"),
        None => return None,
    };
    if cur.next().is_none() {
        return None;
    }
    proof {
        lemma_skip_step(ls, 3);
    }
    let mut modes: Vec<Resolution> = Vec::new();
    let mut now_mode: Option<Resolution> = None;
    let ghost mut j: int = 4;
    let position;
    loop
        invariant_except_break
            cur@ == ls.skip(j),
        invariant
            ls == old(cur)@,
            4 <= j <= ls.len(),
            modes_end(ls, j) == modes_end(ls, 4),
            mode_views(modes@) == ls.subrange(4, j).map_values(|l: Seq<char>| mode_pair(l)),
            option_view(now_mode) == active_mode(ls, 4, j),
        ensures
            4 <= j < ls.len(),
            cur@ == ls.skip(j + 1),
            modes_end(ls, 4) == j,
            mode_views(modes@) == ls.subrange(4, j).map_values(|l: Seq<char>| mode_pair(l)),
            option_view(now_mode) == active_mode(ls, 4, j),
            position_of(ls[j]) == Some(position),
        decreases ls.len() - j,
    {
        let l = match cur.next() {
            Some(l) => l,
            None => {
                assert(ls.skip(j).len() == 0);
                assert(j == ls.len());
                assert(modes_end(ls, j) == j);
                assert(record_of(ls) is None);
                return None;
            },
        };
        proof {
            lemma_skip_step(ls, j);
        }
        match parse_mode_line(&l) {
            Some((m, current)) => {
                if current {
                    now_mode = Some(m.clone());
                }
                modes.push(m);
                proof {
                    assert(ls.subrange(4, j + 1).map_values(|l: Seq<char>| mode_pair(l))
                        =~= ls.subrange(4, j).map_values(|l: Seq<char>| mode_pair(l)).push(
                        mode_pair(ls[j]),
                    ));
                    assert(mode_views(modes@) =~= ls.subrange(4, j + 1).map_values(
                        |l: Seq<char>| mode_pair(l),
                    ));
                    j = j + 1;
                }
            },
            None => {
                match parse_position(&l) {
                    Some(p) => {
                        position = p;
                        break ;
                    },
                    None => {
                        assert(modes_end(ls, j) == j);
                        return None;
                    },
                }
            },
        }
    }
    let l5 = match cur.next() {
        Some(l) => l,
        None => return None,
    };
    proof {
        lemma_skip_step(ls, j + 1);
    }
    let transform = match label_value_range(&l5) {
        Some((a, b)) => match transform_in(&l5, a, b) {
            Some(t) => t,
            None => return None,
        },
        None => return None,
    };
    let l6 = match cur.next() {
        Some(l) => l,
        None => return None,
    };
    proof {
        lemma_skip_step(ls, j + 2);
    }
    let scale = match label_value_range(&l6) {
        Some((a, b)) => {
            if !decimal_in(&l6, a, b).1 {
                return None;
            }
            string_of(&l6, a, b)
        },
        None => return None,
    };
    let out = Output {
        name,
        description,
        physical_size,
        enabled,
        modes,
        now_mode,
        position,
        transform,
        scale,
    };
    proof {
        lemma_skip_step(ls, j + 3 - 1);
    }
    Some(out)
}

/// Why an edited output cannot be applied.
#[derive(Clone, Copy, Debug, PartialEq, Eq, Structural)]
pub enum ApplyError {
    /// No active mode has been chosen.
    NoActiveMode,
    /// The active mode is not among the supported ones.
    UnsupportedMode,
    /// The scale is not a decimal number above zero.
    InvalidScale,
}

pub open spec fn switch_arg(enabled: bool) -> Seq<char> {
    if enabled {
        "--on"@
    } else {
        "--off"@
    }
}

pub open spec fn mode_arg(m: (Seq<char>, Seq<char>)) -> Seq<char> {
    m.0 + "@"@ + m.1
}

pub open spec fn position_arg(p: (u16, u16)) -> Seq<char> {
    nat_text(p.0 as nat) + ","@ + nat_text(p.1 as nat)
}

/// The error that applying `o` meets, if any.
pub open spec fn apply_error(o: OutputView) -> Option<ApplyError> {
    match o.now_mode {
        None => Some(ApplyError::NoActiveMode),
        Some(m) => if !o.modes.contains(m) {
            Some(ApplyError::UnsupportedMode)
        } else if !is_positive_decimal(o.scale) {
            Some(ApplyError::InvalidScale)
        } else {
            None
        },
    }
}

/// The arguments of the display tool that make the compositor match `o`: the output,
/// then the switch, mode, scale, transform and position.
pub open spec fn apply_args_of(o: OutputView) -> Seq<Seq<char>> {
    seq![
        "--output"@,
        o.name,
        switch_arg(o.enabled),
        "--mode"@,
        mode_arg(o.now_mode->0),
        "--scale"@,
        o.scale,
        "--transform"@,
        o.transform.spec_name(),
        "--pos"@,
        position_arg(o.position),
    ]
}

fn same_mode(a: &Resolution, b: &Resolution) -> (r: bool)
    ensures
        r == (a@ == b@),
{
    a.resolution == b.resolution && a.refresh == b.refresh
}

fn text_arg(t: &str) -> (r: String)
    ensures
        r@ == t@,
{
    let mut r = String::new();
    push_text(&mut r, t);
    r
}

impl Output {
    /// Whether `m` is one of the supported modes.
    pub fn supports(&self, m: &Resolution) -> (r: bool)
        ensures
            r == mode_views(self.modes@).contains(m@),
    {
        let mut i: usize = 0;
        while i < self.modes.len()
            invariant
                i <= self.modes.len(),
                forall|k: int| 0 <= k < i ==> self.modes@[k]@ != m@,
            decreases self.modes.len() - i,
        {
            if same_mode(&self.modes[i], m) {
                assert(mode_views(self.modes@)[i as int] == m@);
                return true;
            }
            i = i + 1;
        }
        assert forall|k: int| 0 <= k < mode_views(self.modes@).len() implies mode_views(
            self.modes@,
        )[k] != m@ by {
            assert(self.modes@[k]@ != m@);
        }
        false
    }

    /// The display tool's arguments that apply this output as it stands.
    pub fn apply_args(&self) -> (r: Result<Vec<String>, ApplyError>)
        ensures
            apply_error(self@) matches Some(e) ==> r == Err::<Vec<String>, ApplyError>(e),
            apply_error(self@) is None ==> (r matches Ok(v) && string_views(v@) == apply_args_of(
                self@,
            )),
    {
        let m = match &self.now_mode {
            Some(m) => m,
            None => return Err(ApplyError::NoActiveMode),
        };
        if !self.supports(m) {
            return Err(ApplyError::UnsupportedMode);
        }
        let sc = chars_of(self.scale.as_str());
        assert(sc@.subrange(0, sc.len() as int) =~= sc@);
        if !decimal_in(&sc, 0, sc.len()).1 {
            return Err(ApplyError::InvalidScale);
        }
        let mut mode = String::new();
        push_text(&mut mode, m.resolution.as_str());
        push_text(&mut mode, "@");
        push_text(&mut mode, m.refresh.as_str());
        let mut pos = String::new();
        push_number(&mut pos, self.position.0 as u32);
        push_text(&mut pos, ",");
        push_number(&mut pos, self.position.1 as u32);
        let switch = if self.enabled {
            text_arg("--on")
        } else {
            text_arg("--off")
        };
        let mut v: Vec<String> = Vec::new();
        v.push(text_arg("--output"));
        v.push(self.name.clone());
        v.push(switch);
        v.push(text_arg("--mode"));
        v.push(mode);
        v.push(text_arg("--scale"));
        v.push(self.scale.clone());
        v.push(text_arg("--transform"));
        v.push(text_arg(self.transform.as_str()));
        v.push(text_arg("--pos"));
        v.push(pos);
        assert(string_views(v@) =~= apply_args_of(self@));
        Ok(v)
    }
}

/// The arguments that restate the record at the head of `ls` as it was read: the
/// resolution and refresh rate of its active mode line, then its scale, transform and
/// position as written there.
pub open spec fn observed_args(ls: Seq<Seq<char>>) -> Seq<Seq<char>> {
    let m = modes_end(ls, 4);
    let p = position_digits(ls[m]);
    seq![
        "--output"@,
        header_name(ls[0]),
        switch_arg(label_value(ls[2])->0 == "yes"@),
        "--mode"@,
        mode_arg(active_mode(ls, 4, m)->0),
        "--scale"@,
        label_value(ls[m + 2])->0,
        "--transform"@,
        label_value(ls[m + 1])->0,
        "--pos"@,
        match p {
            Some((x, y)) => x + ","@ + y,
            None => seq![],
        },
    ]
}

proof fn lemma_active_mode_listed(ls: Seq<Seq<char>>, lo: int, j: int)
    requires
        0 <= lo <= j <= ls.len(),
        active_mode(ls, lo, j) is Some,
    ensures
        exists|k: int| lo <= k < j && active_mode(ls, lo, j) == Some(mode_pair(ls[k])),
    decreases j - lo,
{
    if !marks_current(ls[j - 1]) {
        lemma_active_mode_listed(ls, lo, j - 1);
    }
}

/// An output read from a record, and not edited since, applies with exactly the text
/// the record gave: the active mode, scale, transform and position as written (where
/// the coordinates are written without leading zeros).
pub proof fn lemma_apply_reproduces_record(ls: Seq<Seq<char>>)
    requires
        record_of(ls) matches Some((o, n)) && o.now_mode is Some,
        position_digits(ls[modes_end(ls, 4)]) matches Some((x, y)) && is_canonical_number(x)
            && is_canonical_number(y),
    ensures
        record_of(ls) matches Some((o, n)) && apply_error(o) is None && apply_args_of(o)
            == observed_args(ls),
{
    let o = record_of(ls)->0;
    let v = o.0;
    let m = modes_end(ls, 4);
    lemma_active_mode_listed(ls, 4, m);
    let k = choose|k: int| 4 <= k < m && active_mode(ls, 4, m) == Some(mode_pair(ls[k]));
    assert(v.modes[k - 4] == mode_pair(ls[k]));
    let (x, y) = position_digits(ls[m])->0;
    lemma_nat_text_of_digits(x);
    lemma_nat_text_of_digits(y);
    assert(apply_args_of(v) =~= observed_args(ls));
}

/// An output read from a record holds the record's transform, scale and position as
/// written there (the coordinates written without leading zeros), marked mode or not; so
/// the transform, scale and position arguments of the output repeat the record's text.
pub proof fn lemma_record_fields_as_written(ls: Seq<Seq<char>>)
    requires
        record_of(ls) is Some,
        position_digits(ls[modes_end(ls, 4)]) matches Some((x, y)) && is_canonical_number(x)
            && is_canonical_number(y),
    ensures
        ({
            let m = modes_end(ls, 4);
            let o = record_of(ls)->0;
            let v = o.0;
            &&& v.transform.spec_name() == label_value(ls[m + 1])->0
            &&& v.scale == label_value(ls[m + 2])->0
            &&& position_digits(ls[m]) matches Some((x, y)) && position_arg(v.position) == x
                + ","@ + y
            &&& apply_args_of(v)[6] == label_value(ls[m + 2])->0
            &&& apply_args_of(v)[8] == label_value(ls[m + 1])->0
            &&& position_digits(ls[m]) matches Some((x, y)) && apply_args_of(v)[10] == x + ","@
                + y
        }),
{
    let m = modes_end(ls, 4);
    let (x, y) = position_digits(ls[m])->0;
    lemma_nat_text_of_digits(x);
    lemma_nat_text_of_digits(y);
}

/// A record that lists no modes is read all the same, with no active mode, so that
/// applying it is refused rather than guessed.
pub proof fn lemma_record_without_modes(ls: Seq<Seq<char>>)
    requires
        ls.len() >= 7,
        header_of(ls[0]) is Some,
        raw_label_value(ls[1]) is Some,
        label_value(ls[2]) is Some,
        mode_line(ls[4]) is None,
        position_of(ls[4]) is Some,
        label_value(ls[5]) matches Some(t) && Transform::spec_from_name(t) is Some,
        label_value(ls[6]) matches Some(sc) && is_positive_decimal(sc),
    ensures
        record_of(ls) matches Some((o, n)) && n == 7 && o.modes.len() == 0 && o.now_mode is None
            && apply_error(o) == Some(ApplyError::NoActiveMode),
{
    assert(modes_end(ls, 4) == 4);
}

/// The coordinate that an edited position field spells once white space at either end is
/// left out, when it fits in 16 bits.
pub open spec fn coordinate_of(s: Seq<char>) -> Option<u16> {
    match crate::text::unsigned_value(crate::text::trim(s)) {
        Some(n) => if n <= 65535 {
            Some(n as u16)
        } else {
            None
        },
        None => None,
    }
}

/// Reads an edited position field.
pub fn parse_coordinate(text: &str) -> (r: Option<u16>)
    ensures
        r == coordinate_of(text@),
{
    let v = chars_of(text);
    let (a, b) = crate::text::trim_range(&v);
    match crate::text::parse_unsigned(&v, a, b, 65535) {
        Some(n) => Some(n as u16),
        None => None,
    }
}

} // verus!
