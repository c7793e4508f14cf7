//! The clip history: a bounded ring of distinct text clips with stable
//! logical indices, and the clip currently offered as the selection.
use vstd::prelude::*;
use vstd::utf8::encode_utf8;

use crate::ranking::{is_ranking, rank_matches};

verus! {

/// How many clips the ring holds at most.
pub const MAX_CLIPS: usize = 100;

/// The X11 selection a clip was captured from.
#[derive(Clone, Copy, Debug, PartialEq, Eq, Structural)]
pub enum Source {
    Primary,
    Secondary,
    Clipboard,
}

/// What a clip holds.
#[derive(Debug)]
pub enum ClipContents {
    Text(String),
}

impl View for ClipContents {
    type V = Seq<char>;

    open spec fn view(&self) -> Seq<char> {
        match self {
            ClipContents::Text(s) => s@,
        }
    }
}

/// The UTF-8 bytes of a text.
pub open spec fn text_bytes(t: Seq<char>) -> Seq<u8> {
    encode_utf8(t)
}

/// `needle` stands in `hay` at position `i`.
pub open spec fn occurs_at(hay: Seq<u8>, needle: Seq<u8>, i: int) -> bool {
    0 <= i && i + needle.len() <= hay.len() && hay.subrange(i, i + needle.len()) == needle
}

/// `needle` is a contiguous part of `hay`.
pub open spec fn is_substring(needle: Seq<u8>, hay: Seq<u8>) -> bool {
    exists|i: int| occurs_at(hay, needle, i)
}

/// Text `inner` stands inside text `outer`, compared as UTF-8 bytes.
pub open spec fn text_contains(outer: Seq<char>, inner: Seq<char>) -> bool {
    is_substring(text_bytes(inner), text_bytes(outer))
}

/// Whether `needle` occurs in `hay`, by a scan of every start position.
fn bytes_contain(hay: &[u8], needle: &[u8]) -> (r: bool)
    ensures
        r == is_substring(needle@, hay@),
{
    let n = needle.len();
    let h = hay.len();
    if n > h {
        return false;
    }
    if n == 0 {
        assert(hay@.subrange(0, 0) =~= needle@);
        assert(occurs_at(hay@, needle@, 0));
        return true;
    }
    let last = h - n;
    let mut i: usize = 0;
    while i <= last
        invariant
            n == needle@.len(),
            h == hay@.len(),
            0 < n <= h,
            last == h - n,
            i <= last + 1,
            forall|k: int| 0 <= k < i ==> !occurs_at(hay@, needle@, k),
        decreases last + 1 - i,
    {
        let mut j: usize = 0;
        let mut agree = true;
        while agree && j < n
            invariant
                n == needle@.len(),
                h == hay@.len(),
                0 < n <= h,
                last == h - n,
                i <= last,
                j <= n,
                forall|m: int| 0 <= m < j ==> hay@[i + m] == needle@[m],
                !agree ==> j < n && hay@[i + j] != needle@[j as int],
            decreases n - j + (if agree { 1int } else { 0int }),
        {
            if hay[i + j] == needle[j] {
                j = j + 1;
            } else {
                agree = false;
            }
        }
        if agree {
            assert(hay@.subrange(i as int, i + n) =~= needle@);
            assert(occurs_at(hay@, needle@, i as int));
            return true;
        }
        assert(hay@.subrange(i as int, i + n)[j as int] != needle@[j as int]);
        i = i + 1;
    }
    assert forall|k: int| !occurs_at(hay@, needle@, k) by {
        if 0 <= k && k + n <= hay@.len() {
            assert(k < i);
        }
    }
    false
}

impl ClipContents {
    /// Whether `other` stands inside this content, compared as UTF-8 bytes.
    pub fn contains(&self, other: &ClipContents) -> (r: bool)
        ensures
            r == text_contains(self@, other@),
    {
        match self {
            ClipContents::Text(my_str) => match other {
                ClipContents::Text(their_str) => {
                    bytes_contain(my_str.as_str().as_bytes(), their_str.as_str().as_bytes())
                },
            },
        }
    }

    /// Whether the two contents are the same text.
    pub fn equal(&self, other: &ClipContents) -> (r: bool)
        ensures
            r == (self@ == other@),
    {
        match self {
            ClipContents::Text(my_str) => match other {
                ClipContents::Text(their_str) => (*my_str).eq(their_str),
            },
        }
    }

    /// The text of the content.
    pub fn text(&self) -> (r: &String)
        ensures
            r@ == self@,
    {
        match self {
            ClipContents::Text(s) => s,
        }
    }
}

impl Clone for ClipContents {
    fn clone(&self) -> (r: Self)
        ensures
            r == *self,
    {
        match self {
            ClipContents::Text(s) => ClipContents::Text(s.clone()),
        }
    }
}

impl PartialEq for ClipContents {
    fn eq(&self, other: &ClipContents) -> (r: bool) {
        self.equal(other)
    }
}

impl vstd::std_specs::cmp::PartialEqSpecImpl for ClipContents {
    open spec fn obeys_eq_spec() -> bool {
        true
    }

    open spec fn eq_spec(&self, other: &ClipContents) -> bool {
        self@ == other@
    }
}

/// A captured snippet: where it came from and what it holds.
#[derive(Debug)]
pub struct Clip {
    pub source: Source,
    pub contents: ClipContents,
}

/// The mathematical value of a clip.
pub struct ClipView {
    pub source: Source,
    pub text: Seq<char>,
}

impl View for Clip {
    type V = ClipView;

    open spec fn view(&self) -> ClipView {
        ClipView { source: self.source, text: self.contents@ }
    }
}

impl Clip {
    pub fn new(source: Source, contents: ClipContents) -> (r: Clip)
        ensures
            r.source == source,
            r.contents == contents,
    {
        Clip { source, contents }
    }

    /// Whether `other`'s text stands inside this clip's text.
    pub fn contains(&self, other: &Clip) -> (r: bool)
        ensures
            r == text_contains(self@.text, other@.text),
    {
        self.contents.contains(&other.contents)
    }

    /// Whether the two clips hold the same text, whatever their sources.
    pub fn equal(&self, other: &Clip) -> (r: bool)
        ensures
            r == (self@.text == other@.text),
    {
        self.contents.equal(&other.contents)
    }
}

impl Clone for Clip {
    fn clone(&self) -> (r: Self)
        ensures
            r == *self,
    {
        Clip { source: self.source, contents: self.contents.clone() }
    }
}

impl PartialEq for Clip {
    fn eq(&self, other: &Clip) -> (r: bool) {
        self.source == other.source && self.contents.equal(&other.contents)
    }
}

impl vstd::std_specs::cmp::PartialEqSpecImpl for Clip {
    open spec fn obeys_eq_spec() -> bool {
        true
    }

    open spec fn eq_spec(&self, other: &Clip) -> bool {
        self@ == other@
    }
}

/// The view of an optional clip.
pub open spec fn view_opt(o: Option<Clip>) -> Option<ClipView> {
    match o {
        Some(c) => Some(c@),
        None => None,
    }
}

fn clone_opt(o: &Option<Clip>) -> (r: Option<Clip>)
    ensures
        r == *o,
{
    match o {
        Some(c) => Some(c.clone()),
        None => None,
    }
}

/// The mathematical state of the history: the ring (oldest first), the
/// logical index of its first clip, and the selected clip.
pub struct DatabaseView {
    pub ring: Seq<ClipView>,
    pub start: nat,
    pub selection: Option<ClipView>,
}

/// Some clip of `ring` holds the text `t`.
pub open spec fn holds_text(ring: Seq<ClipView>, t: Seq<char>) -> bool {
    exists|k: int| 0 <= k < ring.len() && ring[k].text == t
}

/// No two clips of `ring` hold the same text.
pub open spec fn distinct_texts(ring: Seq<ClipView>) -> bool {
    forall|i: int, j: int| 0 <= i < j < ring.len() ==> ring[i].text != ring[j].text
}

impl DatabaseView {
    pub open spec fn wf(self) -> bool {
        &&& self.ring.len() <= MAX_CLIPS
        &&& distinct_texts(self.ring)
    }

    /// The logical index that the next clip pushed at the tail would get.
    pub open spec fn next_index(self) -> nat {
        self.start + self.ring.len()
    }
}

/// The clip at a logical index, if the ring still holds it.
pub open spec fn clip_at(v: DatabaseView, i: int) -> Option<ClipView> {
    if v.start <= i < v.start + v.ring.len() {
        Some(v.ring[i - v.start])
    } else {
        None
    }
}

/// Adding `c` first drops the tail when the tail's text stands inside `c`'s.
pub open spec fn collapses(v: DatabaseView, c: ClipView) -> bool {
    v.ring.len() > 0 && text_contains(c.text, v.ring.last().text)
}

/// The ring once a tail that `c` collapses has been dropped.
pub open spec fn trimmed(v: DatabaseView, c: ClipView) -> Seq<ClipView> {
    if collapses(v, c) {
        v.ring.drop_last()
    } else {
        v.ring
    }
}

/// `c` is a duplicate: the ring already holds its text.
pub open spec fn is_duplicate(v: DatabaseView, c: ClipView) -> bool {
    holds_text(v.ring, c.text)
}

/// The state after adding `c`: unchanged for a duplicate; else the tail is
/// dropped when its text stands inside `c`'s, `c` is pushed, and the oldest
/// clip rolls out past `MAX_CLIPS`.
pub open spec fn after_add(v: DatabaseView, c: ClipView) -> DatabaseView {
    let ring = trimmed(v, c);
    if is_duplicate(v, c) {
        v
    } else if ring.len() + 1 > MAX_CLIPS {
        DatabaseView { ring: ring.push(c).drop_first(), start: v.start + 1, selection: v.selection }
    } else {
        DatabaseView { ring: ring.push(c), start: v.start, selection: v.selection }
    }
}

/// What adding `c` returns: `None` for a duplicate, else the new clip's logical index.
pub open spec fn added_index(v: DatabaseView, c: ClipView) -> Option<int> {
    if is_duplicate(v, c) {
        None
    } else {
        Some(after_add(v, c).next_index() - 1)
    }
}

/// The fuzzy scores of the ring's clips against `pattern`.
pub open spec fn ring_scores(ring: Seq<ClipView>, pattern: Seq<char>) -> Seq<Option<i64>> {
    Seq::new(ring.len(), |k: int| clangd_score(ring[k].text, pattern))
}

/// `r` is what a search of `ring` for `pattern` shows: the clips at the
/// positions that rank best, best first, at most `max` of them.
pub open spec fn is_search_result(ring: Seq<ClipView>, pattern: Seq<char>, max: nat, r: Seq<ClipView>) -> bool {
    exists|sel: Seq<int>|
        {
            &&& is_ranking(ring_scores(ring, pattern), max, sel)
            &&& r.len() == sel.len()
            &&& forall|k: int| 0 <= k < sel.len() ==> #[trigger] r[k] == ring[sel[k]]
        }
}

/// The newest `max` clips of `ring` (all of them, if fewer), newest first.
pub open spec fn latest(ring: Seq<ClipView>, max: nat) -> Seq<ClipView> {
    let n = if ring.len() < max { ring.len() } else { max };
    Seq::new(n, |k: int| ring[ring.len() - 1 - k])
}

/// What `fuzzy_matcher::clangd::fuzzy_match(line, pattern)` returns: the
/// score of a match, or `None` where `pattern` does not match `line`.
pub uninterp spec fn clangd_score(line: Seq<char>, pattern: Seq<char>) -> Option<i64>;

/// Relies on `fuzzy_matcher::clangd::fuzzy_match` (case ignored), whose result
/// depends on the two texts alone.
#[verifier::external_body]
fn fuzzy_score(line: &str, pattern: &str) -> (r: Option<i64>)
    ensures
        r == clangd_score(line@, pattern@),
{
    fuzzy_matcher::clangd::fuzzy_match(line, pattern)
}

/// The history store.
pub struct Database {
    clips: Vec<Clip>,
    selection: Option<Clip>,
    start_idx: usize,
}

impl View for Database {
    type V = DatabaseView;

    closed spec fn view(&self) -> DatabaseView {
        DatabaseView {
            ring: self.clips@.map_values(|c: Clip| c@),
            start: self.start_idx as nat,
            selection: view_opt(self.selection),
        }
    }
}

impl Database {
    pub open spec fn wf(&self) -> bool {
        self@.wf()
    }

    pub fn new() -> (r: Database)
        ensures
            r.wf(),
            r@.ring.len() == 0,
            r@.start == 0,
            r@.selection is None,
    {
        let r = Database { clips: Vec::new(), selection: None, start_idx: 0 };
        assert(r@.ring =~= Seq::<ClipView>::empty());
        r
    }

    /// Adds a clip at the tail. A clip whose text is already held is not
    /// added (`None`, nothing changes); else a tail whose text stands inside
    /// the new clip's is dropped, the clip is pushed, and the oldest clip
    /// rolls out past `MAX_CLIPS`. Returns the logical index of the added clip.
    pub fn add_clip(&mut self, clip: Clip) -> (r: Option<usize>)
        requires
            old(self).wf(),
            old(self)@.next_index() < usize::MAX,
        ensures
            final(self).wf(),
            final(self)@ == after_add(old(self)@, clip@),
            r matches Some(i) ==> added_index(old(self)@, clip@) == Some(i as int),
            r is None ==> added_index(old(self)@, clip@) is None,
    {
        let ghost v = self@;
        let ghost c = clip@;
        let n = self.clips.len();
        let mut k: usize = 0;
        while k < n
            invariant
                n == self.clips.len(),
                k <= n,
                self@ == v,
                v == old(self)@,
                v.wf(),
                clip@ == c,
                forall|m: int| 0 <= m < k ==> self@.ring[m].text != c.text,
            decreases n - k,
        {
            if self.clips[k].contents.equal(&clip.contents) {
                assert(self@.ring[k as int].text == c.text);
                assert(is_duplicate(v, c));
                return None;
            }
            k = k + 1;
        }
        assert(!is_duplicate(v, c));
        let replace = if n > 0 {
            clip.contains(&self.clips[n - 1])
        } else {
            false
        };
        assert(replace == collapses(v, c));
        if replace {
            self.clips.pop();
        }
        let ghost ring = trimmed(v, c);
        assert(self@.ring =~= ring);
        assert(!holds_text(ring, c.text)) by {
            if holds_text(ring, c.text) {
                let j = choose|j: int| 0 <= j < ring.len() && ring[j].text == c.text;
                assert(v.ring[j].text == c.text);
            }
        }
        self.clips.push(clip);
        assert(self@.ring =~= ring.push(c));
        if self.clips.len() > MAX_CLIPS {
            self.clips.remove(0);
            self.start_idx = self.start_idx + 1;
            assert(self@.ring =~= ring.push(c).drop_first());
        }
        assert(distinct_texts(self@.ring)) by {
            assert(distinct_texts(ring));
        }
        Some(self.clips.len() + self.start_idx - 1)
    }

    /// The clips of the ring, oldest first.
    pub fn clips(&self) -> (r: &Vec<Clip>)
        ensures
            r@.map_values(|c: Clip| c@) == self@.ring,
    {
        &self.clips
    }

    /// The logical index of the oldest clip still held.
    pub fn start_index(&self) -> (r: usize)
        ensures
            r == self@.start,
    {
        self.start_idx
    }

    /// The clip at a logical index, if the ring still holds it.
    pub fn at(&self, idx: usize) -> (r: Option<Clip>)
        ensures
            view_opt(r) == clip_at(self@, idx as int),
    {
        let start = self.start_idx;
        if idx < start {
            None
        } else if idx - start < self.clips.len() {
            Some(self.clips[idx - start].clone())
        } else {
            None
        }
    }

    /// The selected clip.
    pub fn selection(&self) -> (r: Option<Clip>)
        ensures
            view_opt(r) == self@.selection,
    {
        clone_opt(&self.selection)
    }

    /// Makes `clip` the selection, whether or not the ring holds it.
    pub fn select_clip(&mut self, clip: Clip)
        ensures
            final(self)@ == (DatabaseView { selection: Some(clip@), ..old(self)@ }),
    {
        self.selection = Some(clip);
    }

    /// Makes the clip at a logical index the selection; `false`, with
    /// nothing changed, where the ring does not hold that index.
    pub fn select(&mut self, idx: usize) -> (r: bool)
        ensures
            r == clip_at(old(self)@, idx as int) is Some,
            r ==> final(self)@ == (DatabaseView { selection: clip_at(old(self)@, idx as int), ..old(self)@ }),
            !r ==> final(self)@ == old(self)@,
    {
        match self.at(idx) {
            None => false,
            Some(clip) => {
                self.selection = Some(clip);
                true
            },
        }
    }

    /// Up to `max` clips whose fuzzy score against `pattern` is a
    /// non-negative match, best score first, newer first among equal scores.
    pub fn search(&self, pattern: &str, max: usize) -> (r: Vec<Clip>)
        ensures
            is_search_result(self@.ring, pattern@, max as nat, r@.map_values(|c: Clip| c@)),
    {
        let n = self.clips.len();
        let mut scores: Vec<Option<i64>> = Vec::new();
        let mut k: usize = 0;
        while k < n
            invariant
                n == self.clips.len(),
                k <= n,
                scores@.len() == k,
                forall|m: int| 0 <= m < k ==> scores@[m] == clangd_score(self@.ring[m].text, pattern@),
            decreases n - k,
        {
            let s = fuzzy_score(self.clips[k].contents.text().as_str(), pattern);
            scores.push(s);
            k = k + 1;
        }
        assert(scores@ =~= ring_scores(self@.ring, pattern@));
        let order = rank_matches(&scores, max);
        let ghost sel = order@.map_values(|x: usize| x as int);
        let mut out: Vec<Clip> = Vec::new();
        let mut j: usize = 0;
        while j < order.len()
            invariant
                n == self.clips.len(),
                n == self@.ring.len(),
                j <= order@.len(),
                sel == order@.map_values(|x: usize| x as int),
                is_ranking(ring_scores(self@.ring, pattern@), max as nat, sel),
                out@.len() == j,
                forall|m: int| 0 <= m < j ==> (#[trigger] out@[m])@ == self@.ring[sel[m]],
            decreases order.len() - j,
        {
            assert(0 <= sel[j as int] < n);
            out.push(self.clips[order[j]].clone());
            j = j + 1;
        }
        let ghost views = out@.map_values(|c: Clip| c@);
        assert forall|m: int| 0 <= m < sel.len() implies #[trigger] views[m] == self@.ring[sel[m]] by {
            assert(out@[m]@ == self@.ring[sel[m]]);
        }
        out
    }
}

} // verus!
