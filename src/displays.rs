use vstd::prelude::*;

use crate::cursor::{lines_of, LineCursor};
use crate::display::{apply_args_of, apply_error, parse_output, record_of, ApplyError, Output, OutputView};
use crate::text::{lemma_text_le_total, lemma_text_le_trans, text_le, text_le_exec};

verus! {

/// The outputs that a listing describes, record after record.
pub open spec fn listing_of(ls: Seq<Seq<char>>) -> Option<Seq<OutputView>>
    decreases ls.len(),
{
    if ls.len() == 0 {
        Some(seq![])
    } else {
        match record_of(ls) {
            Some((o, n)) => if 0 < n <= ls.len() {
                match listing_of(ls.skip(n)) {
                    Some(rest) => Some(seq![o] + rest),
                    None => None,
                }
            } else {
                None
            },
            None => None,
        }
    }
}

pub open spec fn output_views(v: Seq<Output>) -> Seq<OutputView> {
    v.map_values(|o: Output| o@)
}

pub open spec fn names_unique(os: Seq<OutputView>) -> bool {
    forall|i: int, j: int| 0 <= i < j < os.len() ==> os[i].name != os[j].name
}

pub open spec fn has_name(os: Seq<OutputView>, n: Seq<char>) -> bool {
    exists|i: int| 0 <= i < os.len() && os[i].name == n
}

/// The name that sorts first; the earliest of equal ones.
pub open spec fn lowest_name(os: Seq<OutputView>) -> Seq<char>
    decreases os.len(),
{
    if os.len() <= 1 {
        if os.len() == 1 { os[0].name } else { seq![] }
    } else {
        let r = lowest_name(os.drop_last());
        if text_le(r, os.last().name) {
            r
        } else {
            os.last().name
        }
    }
}

/// The current name once `os` has replaced a collection whose current name was `prev`:
/// `prev` while it is still there, else the name that sorts first.
pub open spec fn next_current(os: Seq<OutputView>, prev: Option<Seq<char>>) -> Option<Seq<char>> {
    if prev is Some && has_name(os, prev->0) {
        prev
    } else if os.len() == 0 {
        None
    } else {
        Some(lowest_name(os))
    }
}

/// Why a listing yields no outputs.
#[derive(Clone, Copy, Debug, PartialEq, Eq, Structural)]
pub enum ListingError {
    /// A record does not follow the grammar.
    MalformedRecord,
    /// Two records name the same output.
    DuplicateName,
}

/// What a listing yields: its outputs, or why there are none.
pub open spec fn listing_result(text: Seq<char>) -> Result<Seq<OutputView>, ListingError> {
    match listing_of(lines_of(text)) {
        None => Err(ListingError::MalformedRecord),
        Some(os) => if names_unique(os) {
            Ok(os)
        } else {
            Err(ListingError::DuplicateName)
        },
    }
}

/// Reads every record of a listing.
pub fn parse_outputs(text: &str) -> (r: Option<Vec<Output>>)
    ensures
        listing_of(lines_of(text@)) is None ==> r is None,
        listing_of(lines_of(text@)) matches Some(os) ==> (r matches Some(v) && output_views(v@)
            == os),
{
    let mut cur = LineCursor::new(text);
    let ghost ls = cur@;
    let mut out: Vec<Output> = Vec::new();
    while !cur.is_done()
        invariant
            ls == lines_of(text@),
            listing_of(cur@) is None ==> listing_of(ls) is None,
            listing_of(cur@) matches Some(rest) ==> listing_of(ls) == Some(output_views(out@) + rest),
        decreases cur@.len(),
    {
        let ghost c0 = cur@;
        match parse_output(&mut cur) {
            Some(o) => {
                out.push(o);
                proof {
                    assert(output_views(out@) =~= output_views(out@.drop_last()).push(o@));
                    if listing_of(cur@) is Some {
                        let rest = listing_of(cur@)->0;
                        assert(output_views(out@.drop_last()) + (seq![o@] + rest) =~= output_views(
                            out@,
                        ) + rest);
                    }
                }
            },
            None => {
                return None;
            },
        }
    }
    assert(output_views(out@) + seq![] =~= output_views(out@));
    Some(out)
}

fn names_unique_exec(v: &Vec<Output>) -> (r: bool)
    ensures
        r == names_unique(output_views(v@)),
{
    let mut j: usize = 0;
    while j < v.len()
        invariant
            j <= v.len(),
            forall|a: int, b: int| 0 <= a < b < j ==> v@[a].name@ != v@[b].name@,
        decreases v.len() - j,
    {
        let mut i: usize = 0;
        while i < j
            invariant
                i <= j < v.len(),
                forall|a: int, b: int| 0 <= a < b < j ==> v@[a].name@ != v@[b].name@,
                forall|a: int| 0 <= a < i ==> v@[a].name@ != v@[j as int].name@,
            decreases j - i,
        {
            if v[i].name == v[j].name {
                assert(output_views(v@)[i as int].name == output_views(v@)[j as int].name);
                return false;
            }
            i = i + 1;
        }
        j = j + 1;
    }
    true
}

/// Where the output named `name` stands.
fn find_name(v: &Vec<Output>, name: &str) -> (r: Option<usize>)
    ensures
        r is Some <==> has_name(output_views(v@), name@),
        r matches Some(i) ==> i < v.len() && v@[i as int].name@ == name@,
{
    let mut i: usize = 0;
    while i < v.len()
        invariant
            i <= v.len(),
            forall|a: int| 0 <= a < i ==> v@[a].name@ != name@,
        decreases v.len() - i,
    {
        if v[i].name.as_str().unicode_len() == name.unicode_len() && text_le_exec(
            v[i].name.as_str(),
            name,
        ) && text_le_exec(name, v[i].name.as_str()) {
            proof {
                lemma_text_le_antisym(v@[i as int].name@, name@);
            }
            assert(output_views(v@)[i as int].name == name@);
            return Some(i);
        }
        proof {
            if v@[i as int].name@ == name@ {
                lemma_text_le_refl(name@);
            }
        }
        i = i + 1;
    }
    assert forall|a: int| 0 <= a < output_views(v@).len() implies output_views(v@)[a].name
        != name@ by {
        assert(v@[a].name@ != name@);
    }
    None
}

proof fn lemma_text_le_refl(a: Seq<char>)
    ensures
        text_le(a, a),
    decreases a.len(),
{
    if a.len() > 0 {
        lemma_text_le_refl(a.drop_first());
    }
}

proof fn lemma_text_le_antisym(a: Seq<char>, b: Seq<char>)
    requires
        text_le(a, b),
        text_le(b, a),
    ensures
        a == b,
    decreases a.len(),
{
    if a.len() > 0 && b.len() > 0 {
        lemma_text_le_antisym(a.drop_first(), b.drop_first());
        assert(a =~= seq![a[0]] + a.drop_first());
        assert(b =~= seq![b[0]] + b.drop_first());
    }
}

/// The name that sorts first is one of the names, and sorts no later than any of them.
proof fn lemma_lowest_name(os: Seq<OutputView>)
    requires
        os.len() > 0,
    ensures
        has_name(os, lowest_name(os)),
        forall|i: int| 0 <= i < os.len() ==> text_le(lowest_name(os), #[trigger] os[i].name),
    decreases os.len(),
{
    if os.len() == 1 {
        lemma_text_le_refl(os[0].name);
        assert(os[0].name == lowest_name(os));
    } else {
        let p = os.drop_last();
        lemma_lowest_name(p);
        let r = lowest_name(p);
        let l = os.last().name;
        if text_le(r, l) {
            assert(forall|i: int| 0 <= i < p.len() ==> p[i] == os[i]);
            assert forall|i: int| 0 <= i < os.len() implies text_le(r, #[trigger] os[i].name) by {
                if i < p.len() {
                    assert(text_le(r, p[i].name));
                }
            }
            let k = choose|k: int| 0 <= k < p.len() && p[k].name == r;
            assert(os[k].name == r);
        } else {
            lemma_text_le_total(r, l);
            lemma_text_le_refl(l);
            assert forall|i: int| 0 <= i < os.len() implies text_le(l, #[trigger] os[i].name) by {
                if i < p.len() {
                    assert(p[i] == os[i]);
                    lemma_text_le_trans(l, r, os[i].name);
                }
            }
            assert(os[os.len() - 1].name == l);
        }
    }
}

/// When a fresh listing no longer holds the current name, the name that takes its place
/// is one that the listing holds, and it sorts no later than any other it holds.
pub proof fn lemma_fallback_current(os: Seq<OutputView>, prev: Seq<char>)
    requires
        os.len() > 0,
        !has_name(os, prev),
    ensures
        next_current(os, Some(prev)) matches Some(n) && has_name(os, n) && forall|i: int|
            0 <= i < os.len() ==> text_le(n, #[trigger] os[i].name),
{
    lemma_lowest_name(os);
}

/// Where the name that sorts first stands.
fn lowest_index(v: &Vec<Output>) -> (r: usize)
    requires
        v.len() > 0,
    ensures
        r < v.len(),
        v@[r as int].name@ == lowest_name(output_views(v@)),
{
    let ghost os = output_views(v@);
    let mut best: usize = 0;
    let mut k: usize = 1;
    assert(os.subrange(0, 1).len() == 1);
    while k < v.len()
        invariant
            os == output_views(v@),
            1 <= k <= v.len(),
            best < k,
            v@[best as int].name@ == lowest_name(os.subrange(0, k as int)),
        decreases v.len() - k,
    {
        let ghost p = os.subrange(0, k + 1);
        assert(p.drop_last() =~= os.subrange(0, k as int));
        assert(p.last() == v@[k as int]@);
        if !text_le_exec(v[best].name.as_str(), v[k].name.as_str()) {
            best = k;
        }
        k = k + 1;
    }
    assert(os.subrange(0, v.len() as int) =~= os);
    best
}

/// The outputs of the compositor, each under its own name, and the one the user has
/// chosen to look at.
pub struct Displays {
    displays: Vec<Output>,
    now: Option<String>,
}

/// What a `Displays` holds, as values.
pub struct DisplaysView {
    pub outputs: Seq<OutputView>,
    pub now: Option<Seq<char>>,
}

impl View for Displays {
    type V = DisplaysView;

    closed spec fn view(&self) -> DisplaysView {
        DisplaysView {
            outputs: output_views(self.displays@),
            now: match self.now {
                Some(n) => Some(n@),
                None => None,
            },
        }
    }
}

/// The outputs of a listing, when it follows the grammar and names each output once.
pub fn read_listing(text: &str) -> (r: Result<Vec<Output>, ListingError>)
    ensures
        listing_result(text@) matches Err(e) ==> r == Err::<Vec<Output>, ListingError>(e),
        listing_result(text@) matches Ok(os) ==> (r matches Ok(v) && output_views(v@) == os),
{
    match parse_outputs(text) {
        None => Err(ListingError::MalformedRecord),
        Some(v) => if names_unique_exec(&v) {
            Ok(v)
        } else {
            Err(ListingError::DuplicateName)
        },
    }
}

impl Displays {
    /// The outputs of a first listing; the name that sorts first is the current one.
    pub fn from_listing(text: &str) -> (r: Result<Displays, ListingError>)
        ensures
            listing_result(text@) matches Err(e) ==> (r matches Err(e2) && e2 == e),
            listing_result(text@) matches Ok(os) ==> (r matches Ok(d) && d@.outputs == os
                && d@.now == next_current(os, None)),
    {
        let mut d = Displays { displays: Vec::new(), now: None };
        match d.init(text) {
            Err(e) => Err(e),
            Ok(()) => Ok(d),
        }
    }

    /// Replaces every output by those of a fresh listing. The current name stays while
    /// the listing still holds it; otherwise the name that sorts first takes its place.
    /// A listing that cannot be read leaves everything as it was.
    pub fn init(&mut self, text: &str) -> (r: Result<(), ListingError>)
        ensures
            listing_result(text@) matches Err(e) ==> r == Err::<(), ListingError>(e)
                && final(self)@ == old(self)@,
            listing_result(text@) matches Ok(os) ==> r is Ok && final(self)@.outputs == os
                && final(self)@.now == next_current(os, old(self)@.now),
    {
        let v = match read_listing(text) {
            Err(e) => return Err(e),
            Ok(v) => v,
        };
        let keep = match &self.now {
            Some(n) => find_name(&v, n.as_str()).is_some(),
            None => false,
        };
        if !keep {
            if v.len() == 0 {
                self.now = None;
            } else {
                let k = lowest_index(&v);
                self.now = Some(v[k].name.clone());
            }
        }
        self.displays = v;
        Ok(())
    }

    /// Every output, in the order listed.
    pub fn outputs(&self) -> (r: &Vec<Output>)
        ensures
            output_views(r@) == self@.outputs,
    {
        &self.displays
    }

    /// The output named `name`.
    pub fn get(&self, name: &str) -> (r: Option<&Output>)
        ensures
            r is Some <==> has_name(self@.outputs, name@),
            r matches Some(o) ==> o@.name == name@ && self@.outputs.contains(o@),
    {
        match find_name(&self.displays, name) {
            Some(i) => {
                assert(output_views(self.displays@)[i as int] == self.displays@[i as int]@);
                Some(&self.displays[i])
            },
            None => None,
        }
    }

    /// The name of the current output.
    pub fn now(&self) -> (r: Option<String>)
        ensures
            r matches Some(n) ==> self@.now == Some(n@),
            r is None ==> self@.now is None,
    {
        match &self.now {
            Some(n) => Some(n.clone()),
            None => None,
        }
    }

    /// Makes `name` the current output, when there is an output of that name.
    pub fn set_now(&mut self, name: &str) -> (r: bool)
        ensures
            r == has_name(old(self)@.outputs, name@),
            final(self)@.outputs == old(self)@.outputs,
            r ==> final(self)@.now == Some(name@),
            !r ==> final(self)@.now == old(self)@.now,
    {
        if find_name(&self.displays, name).is_some() {
            let mut n = String::new();
            crate::text::push_text(&mut n, name);
            self.now = Some(n);
            true
        } else {
            false
        }
    }

    /// Puts an edited output in place of the output of the same name.
    pub fn set_output(&mut self, o: Output) -> (r: bool)
        ensures
            r == has_name(old(self)@.outputs, o@.name),
            final(self)@.now == old(self)@.now,
            !r ==> final(self)@.outputs == old(self)@.outputs,
            r ==> exists|i: int|
                0 <= i < old(self)@.outputs.len() && old(self)@.outputs[i].name == o@.name
                    && final(self)@.outputs == old(self)@.outputs.update(i, o@),
    {
        match find_name(&self.displays, o.name.as_str()) {
            Some(i) => {
                let ghost ov = o@;
                self.displays.set(i, o);
                assert(output_views(self.displays@) =~= output_views(old(self).displays@).update(
                    i as int,
                    ov,
                ));
                true
            },
            None => false,
        }
    }

    /// The display tool's arguments for every output, in the order listed; the error of
    /// the first output that cannot be applied, if any.
    pub fn apply_args(&self) -> (r: Result<Vec<Vec<String>>, ApplyError>)
        ensures
            r is Ok <==> forall|i: int|
                0 <= i < self@.outputs.len() ==> apply_error(#[trigger] self@.outputs[i]) is None,
            r matches Ok(v) ==> v.len() == self@.outputs.len() && forall|i: int|
                0 <= i < v.len() ==> crate::text::string_views(#[trigger] v@[i]@)
                    == apply_args_of(self@.outputs[i]),
            r matches Err(e) ==> exists|k: int|
                0 <= k < self@.outputs.len() && apply_error(self@.outputs[k]) == Some(e)
                    && forall|i: int| 0 <= i < k ==> apply_error(#[trigger] self@.outputs[i]) is None,
    {
        let ghost os = self@.outputs;
        let mut all: Vec<Vec<String>> = Vec::new();
        let mut i: usize = 0;
        while i < self.displays.len()
            invariant
                os == self@.outputs,
                os == output_views(self.displays@),
                i <= self.displays.len(),
                all.len() == i,
                forall|k: int| 0 <= k < i ==> apply_error(#[trigger] os[k]) is None,
                forall|k: int|
                    0 <= k < i ==> crate::text::string_views(#[trigger] all@[k]@)
                        == apply_args_of(os[k]),
            decreases self.displays.len() - i,
        {
            assert(os[i as int] == self.displays@[i as int]@);
            match self.displays[i].apply_args() {
                Ok(a) => {
                    all.push(a);
                },
                Err(e) => {
                    return Err(e);
                },
            }
            i = i + 1;
        }
        Ok(all)
    }
}

} // verus!
