//! The visible dictation transcript.
//!
//! The single source of truth for what text the target app should contain
//! and what the HUD should show, with mid-dictation word erase/undo applied:
//!
//! - `erase_last` removes the last visible word: from the live partial if an
//!   utterance is in progress, else from the tail of the committed text.
//! - `undo_last` restores the most recently erased word (LIFO), putting it
//!   back at its original position in the text.
//! - An erase stays restorable for the rest of the utterance in progress,
//!   however much the decoder's hypothesis grows. It is retired for good only
//!   at an utterance boundary: this utterance's own final containing content
//!   that no partial of it ever showed, or the next utterance moving past it.
//!
//! Committed tokens are stored raw; casing is applied at render time (the
//! first visible word of each segment is capitalized), so erasing or
//! restoring the first word of a segment re-derives the casing of whatever
//! word takes its place.
use std::collections::BTreeSet;

use vstd::prelude::*;
use vstd::string::*;

use crate::injector;
use crate::model::{Model, Pending};
use crate::text;

verus! {

/// Moving one more element of `s` from the part behind position `k` to the
/// part before it.
proof fn lemma_take_one_more(s: Seq<Pending>, k: int)
    requires
        0 <= k < s.len(),
        s.no_duplicates(),
    ensures
        forall|q: Pending| #[trigger]
            s.take(k + 1).contains(q) <==> q == s[k] || s.take(k).contains(q),
        forall|q: Pending| #[trigger]
            s.skip(k + 1).contains(q) <==> q != s[k] && s.skip(k).contains(q),
{
    assert forall|q: Pending| #[trigger] s.take(k + 1).contains(q) <==> q == s[k] || s.take(
        k,
    ).contains(q) by {
        assert(s.take(k + 1)[k] == s[k]);
        if s.take(k).contains(q) {
            let j = choose|j: int| 0 <= j < k && s.take(k)[j] == q;
            assert(s.take(k + 1)[j] == q);
        }
        if s.take(k + 1).contains(q) && q != s[k] {
            let j = s.take(k + 1).index_of(q);
            assert(s.take(k)[j] == q);
        }
    }
    assert forall|q: Pending| #[trigger] s.skip(k + 1).contains(q) <==> q != s[k] && s.skip(
        k,
    ).contains(q) by {
        if s.skip(k + 1).contains(q) {
            let j = s.skip(k + 1).index_of(q);
            assert(s.skip(k)[j + 1] == q);
            assert(s[k + 1 + j] == q);
        }
        if q != s[k] && s.skip(k).contains(q) {
            let j = s.skip(k).index_of(q);
            assert(s.skip(k + 1)[j - 1] == q);
        }
    }
}

/// One entry of the undo stack.
enum Undo {
    /// A committed slot hidden by a pending erasure.
    Committed(usize),
    /// A token position erased in the current partial.
    Partial(usize),
}

impl View for Undo {
    type V = Pending;

    closed spec fn view(&self) -> Pending {
        match self {
            Undo::Committed(i) => Pending::Committed(*i as int),
            Undo::Partial(i) => Pending::Partial(*i as int),
        }
    }
}

/// A slot of the committed sequence as a model has it.
spec fn slot_view(slot: Option<String>) -> Option<Seq<char>> {
    match slot {
        Some(s) => Some(s@),
        None => None,
    }
}

/// One dictation session's visible transcript.
pub struct Transcript {
    /// The full token sequence of the committed segments, in order. `None`
    /// marks a permanently erased position. Tokens are raw.
    committed: Vec<Option<String>>,
    /// The start index in `committed` of each committed segment; the last
    /// segment runs to the end of the vec.
    segment_starts: Vec<usize>,
    /// Committed slots currently hidden by a pending erasure.
    hidden: BTreeSet<usize>,
    /// The erased words that are still restorable; the last element is what
    /// the next `undo_last` restores.
    undo: Vec<Undo>,
    /// The latest partial's tokens; empty between finals.
    partial_tokens: Vec<String>,
    /// Whether an utterance is currently in progress.
    utterance_active: bool,
    /// The most tokens any partial of this utterance has had so far.
    partial_max_tokens: usize,
    /// Token positions permanently erased in the current utterance.
    erased: BTreeSet<usize>,
}

impl View for Transcript {
    type V = Model;

    closed spec fn view(&self) -> Model {
        Model {
            committed: self.committed@.map_values(|o: Option<String>| slot_view(o)),
            starts: self.segment_starts@.map_values(|i: usize| i as int),
            pending: self.undo@.map_values(|u: Undo| u@),
            partial: text::views(self.partial_tokens@),
            active: self.utterance_active,
            longest: self.partial_max_tokens as nat,
        }
    }
}

impl Default for Transcript {
    fn default() -> (t: Self)
        ensures
            t.wf(),
            t@ == Model::fresh(),
    {
        Self::new()
    }
}

impl Transcript {
    /// What holds of every transcript between two calls: the model's own
    /// invariant, `hidden` holds the committed slots of the undo stack, and
    /// no position of the utterance is erased for good before its final.
    pub closed spec fn wf(&self) -> bool {
        &&& self@.wf()
        &&& self.hidden_is_pending()
        &&& self.erased@ == Set::<usize>::empty()
    }

    spec fn hidden_is_pending(&self) -> bool {
        forall|i: usize| #[trigger] self.hidden@.contains(i) <==> self@.hides(i as int)
    }

    /// The invariant of the model, for callers that only see the view.
    pub proof fn lemma_wf(&self)
        requires
            self.wf(),
        ensures
            self@.wf(),
    {
    }

    pub fn new() -> (t: Self)
        ensures
            t.wf(),
            t@ == Model::fresh(),
    {
        let t = Transcript {
            committed: Vec::new(),
            segment_starts: Vec::new(),
            hidden: BTreeSet::new(),
            undo: Vec::new(),
            partial_tokens: Vec::new(),
            utterance_active: false,
            partial_max_tokens: 0,
            erased: BTreeSet::new(),
        };
        assert(t@ =~= Model::fresh());
        t
    }

    /// The whitespace-separated words of `text`.
    fn tokens(text: &str) -> (v: Vec<String>)
        ensures
            text::views(v@) == text::words(text@),
    {
        text::split_words(text)
    }

    /// Positions currently excluded from the visible partial: permanently
    /// erased plus pending (restorable) erasures.
    fn excluded_positions(&self) -> (s: BTreeSet<usize>)
        requires
            self.wf(),
        ensures
            forall|i: usize| #[trigger] s@.contains(i) <==> self@.excludes(i as int),
    {
        broadcast use vstd::std_specs::btree::group_btree_axioms;

        let mut s = self.erased.clone();
        let mut k: usize = 0;
        while k < self.undo.len()
            invariant
                k <= self.undo@.len(),
                forall|i: usize| #[trigger]
                    s@.contains(i) <==> exists|j: int|
                        0 <= j < k && #[trigger] self.undo@[j] == Undo::Partial(i),
            decreases self.undo@.len() - k,
        {
            if let Undo::Partial(i) = &self.undo[k] {
                s.insert(*i);
            }
            k += 1;
        }
        assert forall|i: usize| #[trigger] s@.contains(i) <==> self@.excludes(i as int) by {
            if s@.contains(i) {
                let j = choose|j: int| 0 <= j < k && #[trigger] self.undo@[j] == Undo::Partial(i);
                assert(self@.pending[j] == Pending::Partial(i as int));
            }
            if self@.excludes(i as int) {
                let j = choose|j: int|
                    0 <= j < self@.pending.len() && self@.pending[j] == Pending::Partial(i as int);
                assert(self.undo@[j]@ == Pending::Partial(i as int));
                assert(self.undo@[j] == Undo::Partial(i));
            }
        }
        s
    }

    /// The current live partial with all erased positions excluded
    /// (whitespace-joined, raw - no casing transform).
    pub fn visible_partial(&self) -> (r: String)
        requires
            self.wf(),
        ensures
            r@ == self@.visible_partial(),
    {
        broadcast use vstd::std_specs::btree::group_btree_axioms;

        let excluded = self.excluded_positions();
        let mut shown: Vec<String> = Vec::new();
        let mut i: usize = 0;
        while i < self.partial_tokens.len()
            invariant
                i <= self.partial_tokens@.len(),
                self@.partial == text::views(self.partial_tokens@),
                forall|k: usize| #[trigger] excluded@.contains(k) <==> self@.excludes(k as int),
                text::views(shown@) == self@.partial_words(i as int),
            decreases self.partial_tokens@.len() - i,
        {
            assert(excluded@.contains(i) <==> self@.excludes(i as int));
            if !excluded.contains(&i) {
                let ghost before = shown@;
                shown.push(self.partial_tokens[i].clone());
                assert(text::views(shown@) == text::views(before).push(
                    self.partial_tokens@[i as int]@,
                ));
            }
            i += 1;
        }
        text::join_words(&shown)
    }

    /// One committed segment's visible tokens, in order (raw).
    fn segment_tokens(&self, start: usize, end: usize) -> (v: Vec<String>)
        requires
            self.wf(),
            start <= end <= self@.committed.len(),
        ensures
            text::views(v@) == self@.slot_words(start as int, end as int),
    {
        broadcast use vstd::std_specs::btree::group_btree_axioms;

        let mut v: Vec<String> = Vec::new();
        let mut i: usize = start;
        while i < end
            invariant
                self.wf(),
                start <= i <= end <= self@.committed.len(),
                text::views(v@) == self@.slot_words(start as int, i as int),
            decreases end - i,
        {
            assert(self.hidden@.contains(i) <==> self@.hides(i as int));
            assert(self@.committed[i as int] == slot_view(self.committed@[i as int]));
            if !self.hidden.contains(&i) {
                if let Some(tok) = &self.committed[i] {
                    let ghost before = v@;
                    v.push(tok.clone());
                    assert(text::views(v@) == text::views(before).push(tok@));
                }
            }
            i += 1;
        }
        v
    }

    /// One committed segment's visible text: its visible tokens joined by a
    /// single space, the first word capitalized; empty when the segment has
    /// no visible tokens.
    fn segment_text(&self, start: usize, end: usize) -> (r: String)
        requires
            self.wf(),
            start <= end <= self@.committed.len(),
        ensures
            r@ == injector::capitalized(
                text::join(self@.slot_words(start as int, end as int)),
            ),
    {
        let toks = self.segment_tokens(start, end);
        if toks.is_empty() {
            return String::new();
        }
        let joined = text::join_words(&toks);
        injector::capitalize_first(joined.as_str())
    }

    /// The committed text: each segment's visible text, one space between
    /// non-empty segments.
    fn committed_text(&self) -> (r: String)
        requires
            self.wf(),
        ensures
            r@ == self@.committed_text(),
    {
        let mut segs: Vec<String> = Vec::new();
        let mut k: usize = 0;
        while k < self.segment_starts.len()
            invariant
                self.wf(),
                k <= self.segment_starts@.len(),
                self@.starts.len() == self.segment_starts@.len(),
                text::views(segs@) == self@.segment_texts(k as int),
            decreases self.segment_starts@.len() - k,
        {
            let start: usize = self.segment_starts[k];
            let end: usize = if k + 1 < self.segment_starts.len() {
                self.segment_starts[k + 1]
            } else {
                self.committed.len()
            };
            assert(self@.starts[k as int] == start);
            assert(k + 1 < self@.starts.len() ==> self@.starts[k + 1] == self.segment_starts@[k
                + 1]);
            assert(self@.segment_end(k as int) == end);
            let t = self.segment_text(start, end);
            if !t.as_str().is_empty() {
                let ghost before = segs@;
                let ghost shown = t@;
                segs.push(t);
                assert(text::views(segs@) == text::views(before).push(shown));
            }
            k += 1;
        }
        text::join_words(&segs)
    }

    /// The full visible text for the HUD: committed + live partial (raw,
    /// erasures applied).
    pub fn display(&self) -> (r: String)
        requires
            self.wf(),
        ensures
            r@ == self@.display(),
    {
        let p = self.visible_partial();
        let mut c = self.committed_text();
        if p.as_str().is_empty() {
            c
        } else if c.as_str().is_empty() {
            p
        } else {
            c.push(' ');
            c.append(p.as_str());
            c
        }
    }

    /// The text the target buffer should hold: the committed text plus,
    /// while an utterance is in progress, the transformed `stable` prefix
    /// of the visible partial. An empty `stable` types nothing of the
    /// partial yet.
    pub fn buffer_target(&self, stable: &str) -> (r: String)
        requires
            self.wf(),
        ensures
            r@ == self@.buffer_target(stable@),
    {
        let mut out = self.committed_text();
        let visible = self.visible_partial();
        if !visible.as_str().is_empty() && !stable.is_empty() {
            let head = injector::capitalize_first(stable);
            if !out.as_str().is_empty() {
                out.push(' ');
            }
            out.append(head.as_str());
        }
        assert(self@.committed_text().len() == 0 ==> self@.committed_text()
            + injector::capitalized(stable@) == injector::capitalized(stable@));
        out
    }

    /// New words were transcribed: pending erasures become permanent.
    /// Partial positions join the `erased` set; hidden committed slots
    /// become gaps (the token is dropped from the sequence).
    fn flush_undos(&mut self)
        requires
            old(self).wf(),
        ensures
            final(self)@ == old(self)@.retired(),
            final(self).hidden@ == Set::<usize>::empty(),
            forall|i: usize| #[trigger]
                final(self).erased@.contains(i) <==> old(self)@.excludes(i as int),
    {
        broadcast use vstd::std_specs::btree::group_btree_axioms;

        let ghost before = self@;
        let n: usize = self.undo.len();
        let mut k: usize = 0;
        assert(before.pending.skip(0) == before.pending);
        while k < n
            invariant
                before == old(self)@,
                before.wf(),
                n == before.pending.len(),
                k <= n,
                self.undo@ == old(self).undo@,
                self.segment_starts@ == old(self).segment_starts@,
                self.partial_tokens@ == old(self).partial_tokens@,
                self.utterance_active == old(self).utterance_active,
                self.partial_max_tokens == old(self).partial_max_tokens,
                self.committed@.len() == before.committed.len(),
                forall|i: int|
                    #![trigger self.committed@[i]]
                    0 <= i < before.committed.len() ==> slot_view(self.committed@[i]) == (
                    if before.pending.take(k as int).contains(Pending::Committed(i)) {
                        None
                    } else {
                        before.committed[i]
                    }),
                forall|i: usize| #[trigger]
                    self.hidden@.contains(i) <==> before.pending.skip(k as int).contains(
                        Pending::Committed(i as int),
                    ),
                forall|i: usize| #[trigger]
                    self.erased@.contains(i) <==> before.pending.take(k as int).contains(
                        Pending::Partial(i as int),
                    ),
            decreases n - k,
        {
            let ghost p = before.pending[k as int];
            let ghost committed_before = self.committed@;
            proof {
                assert(self.undo@[k as int]@ == p);
                lemma_take_one_more(before.pending, k as int);
                assert(before.pending.contains(p));
            }
            match self.undo[k] {
                Undo::Partial(i) => {
                    self.erased.insert(i);
                },
                Undo::Committed(i) => {
                    assert(before.hides(i as int));
                    self.hidden.remove(&i);
                    self.committed[i] = None;
                },
            }
            k += 1;
        }
        proof {
            assert(before.pending.take(n as int) == before.pending);
            assert forall|i: usize| !self.hidden@.contains(i) by {
                assert(before.pending.skip(n as int).len() == 0);
            }
        }
        self.undo.clear();
        assert(self@ =~= before.retired());
        assert(self.hidden@ =~= Set::<usize>::empty());
    }

    /// Feed a live partial (streaming path). Returns the visible partial.
    ///
    /// Pending erasures stay restorable for the whole utterance in progress,
    /// however long the decoder's hypothesis grows tick to tick. The very
    /// first partial of the next utterance retires whatever erasures are
    /// still pending from the previous (already committed) one.
    pub fn feed_partial(&mut self, text: &str) -> (visible: String)
        requires
            old(self).wf(),
        ensures
            final(self).wf(),
            final(self)@ == old(self)@.after_partial(text@),
            visible@ == final(self)@.visible_partial(),
    {
        proof {
            self@.partial_keeps_wf(text@);
        }
        let ghost before = self@;
        if !self.utterance_active {
            self.flush_undos();
            self.utterance_active = true;
            assert forall|i: usize| !self.erased@.contains(i) by {
                assert(!before.excludes(i as int));
            }
            assert(self.erased@ =~= Set::<usize>::empty());
        }
        let tokens = Self::tokens(text);
        if tokens.len() > self.partial_max_tokens {
            self.partial_max_tokens = tokens.len();
        }
        self.partial_tokens = tokens;
        proof {
            assert(tokens@.len() == text::words(text@).len());
            assert(self@ =~= before.after_partial(text@));
            assert(self.hidden_is_pending());
        }
        self.visible_partial()
    }

    /// The utterance in progress committed with this final text (streaming
    /// path). Its tokens are appended to the committed sequence: permanently
    /// erased positions as gaps, pending partial erasures as hidden slots
    /// (same LIFO order, converted to slot indexes), the rest visible.
    pub fn feed_final(&mut self, text: &str)
        requires
            old(self).wf(),
        ensures
            final(self).wf(),
            final(self)@ == old(self)@.after_final(text@),
    {
        broadcast use vstd::std_specs::btree::group_btree_axioms;

        proof {
            self@.final_keeps_wf(text@);
        }
        let ghost before = self@;
        let tokens = Self::tokens(text);
        let n: usize = tokens.len();
        let grown: bool = n > self.partial_max_tokens;
        let ghost words = text::words(text@);
        assert(n == words.len());
        if grown {
            // The final contains words no partial ever showed: new words,
            // pending erasures are permanent.
            self.flush_undos();
        }
        let ghost flushed = if grown {
            before.retired()
        } else {
            before
        };
        assert(self@ == flushed);
        let base: usize = self.committed.len();
        // Append the segment: permanently erased positions become gaps.
        let mut i: usize = 0;
        while i < n
            invariant
                n == tokens@.len(),
                text::views(tokens@) == words,
                words == text::words(text@),
                base == before.committed.len(),
                i <= n,
                self.committed@.len() == base + i,
                forall|k: usize| #[trigger]
                    self.erased@.contains(k) <==> grown && before.excludes(k as int),
                self@ == (Model {
                    committed: flushed.committed + before.after_final(text@).committed.subrange(
                        base as int,
                        base + i,
                    ),
                    ..flushed
                }),
                flushed.committed.len() == base,
                grown <==> words.len() > before.longest,
                forall|k: usize| #[trigger]
                    self.hidden@.contains(k) <==> flushed.hides(k as int),
                before.after_final(text@).committed.len() == base + n,
            decreases n - i,
        {
            let ghost shown = self@;
            let ghost committed_before = self.committed@;
            let token = tokens[i].clone();
            assert(self.erased@.contains(i) <==> grown && before.excludes(i as int));
            let slot = if self.erased.contains(&i) {
                None
            } else {
                Some(token)
            };
            let ghost word = slot_view(slot);
            self.committed.push(slot);
            proof {
                assert(word == before.after_final(text@).committed[base + i]) by {
                    assert(text::views(tokens@)[i as int] == tokens@[i as int]@);
                }
                assert(self@.committed =~= shown.committed.push(word));
                assert(self@ =~= (Model {
                    committed: flushed.committed + before.after_final(text@).committed.subrange(
                        base as int,
                        base + i + 1,
                    ),
                    ..flushed
                }));
            }
            i += 1;
        }
        // Pending partial erasures whose position the final still contains
        // become restorable committed-slot erasures; positions the final
        // dropped are discarded. Committed erasures of earlier segments pass
        // through unchanged.
        let mut converted: Vec<Undo> = Vec::new();
        let ghost appended = self@;
        let ghost pending = flushed.pending;
        let total: usize = self.committed.len();
        let m: usize = self.undo.len();
        let mut k: usize = 0;
        proof {
            assert(pending.take(0) =~= Seq::<Pending>::empty());
            assert(converted@.map_values(|u: Undo| u@) =~= Seq::<Pending>::empty());
        }
        while k < m
            invariant
                total == base + n,
                base == before.committed.len(),
                self@ == appended,
                appended.pending == pending,
                pending == flushed.pending,
                m == pending.len(),
                m == self.undo@.len(),
                k <= m,
                converted@.map_values(|u: Undo| u@) == Model::carried(
                    pending.take(k as int),
                    base as int,
                    n as int,
                ),
                forall|j: usize| #[trigger]
                    self.hidden@.contains(j) <==> flushed.hides(j as int) || (j - base < n
                        && pending.take(k as int).contains(Pending::Partial(j - base))),
            decreases m - k,
        {
            let ghost p = pending[k as int];
            let ghost converted_before = converted@.map_values(|u: Undo| u@);
            proof {
                assert(self.undo@[k as int]@ == p) by {
                    assert(appended.pending[k as int] == p);
                }
                let t = pending.take(k + 1);
                assert(t.drop_last() =~= pending.take(k as int));
                assert(t.last() == p);
                assert(t =~= pending.take(k as int).push(p));
                assert forall|q: Pending| #[trigger]
                    t.contains(q) <==> q == p || pending.take(k as int).contains(q) by {
                    vstd::seq_lib::lemma_seq_contains_after_push(pending.take(k as int), p, q);
                }
            }
            match self.undo[k] {
                Undo::Partial(pos) => {
                    if pos < n {
                        let slot: usize = base + pos;
                        self.hidden.insert(slot);
                        converted.push(Undo::Committed(slot));
                        assert(converted@.map_values(|u: Undo| u@) =~= converted_before.push(
                            Pending::Committed(slot as int),
                        ));
                    }
                },
                Undo::Committed(slot) => {
                    converted.push(Undo::Committed(slot));
                    assert(converted@.map_values(|u: Undo| u@) =~= converted_before.push(
                        Pending::Committed(slot as int),
                    ));
                },
            }
            k += 1;
        }
        if n > 0 {
            self.segment_starts.push(base);
        }
        // Start a fresh utterance.
        self.partial_tokens.clear();
        self.utterance_active = false;
        self.partial_max_tokens = 0;
        self.erased.clear();
        self.undo = converted;
        proof {
            assert(pending.take(m as int) =~= pending);
            assert(self@ =~= before.after_final(text@));
            Model::lemma_carried(pending, base as int, n as int);
            assert forall|j: usize| #[trigger]
                self.hidden@.contains(j) <==> self@.hides(j as int) by {
                assert(self@.pending.contains(Pending::Committed(j as int)) <==> (
                pending.contains(Pending::Committed(j as int)) || (j - base < n
                    && pending.contains(Pending::Partial(j - base)))));
            }
        }
    }

    /// A new utterance's final (batch path: no partials in flight). Any
    /// pending erasures are permanent - a whole new utterance was
    /// transcribed - then the text is committed.
    pub fn feed_batch_final(&mut self, text: &str)
        requires
            old(self).wf(),
        ensures
            final(self).wf(),
            final(self)@ == old(self)@.after_batch_final(text@),
    {
        proof {
            self@.batch_final_keeps_wf(text@);
        }
        let ghost before = self@;
        self.flush_undos();
        self.partial_tokens.clear();
        self.utterance_active = false;
        self.partial_max_tokens = 0;
        self.erased.clear();
        let tokens = Self::tokens(text);
        let n: usize = tokens.len();
        let base: usize = self.committed.len();
        let ghost cleared = self@;
        let ghost words = text::words(text@);
        let mut i: usize = 0;
        while i < n
            invariant
                n == tokens@.len(),
                text::views(tokens@) == words,
                i <= n,
                self@ == (Model {
                    committed: cleared.committed + words.take(i as int).map_values(
                        |w: Seq<char>| Some(w),
                    ),
                    ..cleared
                }),
                self.hidden@ == Set::<usize>::empty(),
                self.erased@ == Set::<usize>::empty(),
            decreases n - i,
        {
            let ghost shown = self@;
            let token = tokens[i].clone();
            let slot = Some(token);
            let ghost word = slot_view(slot);
            self.committed.push(slot);
            proof {
                assert(text::views(tokens@)[i as int] == tokens@[i as int]@);
                assert(self@.committed =~= shown.committed.push(word));
                assert(words.take(i + 1) =~= words.take(i as int).push(words[i as int]));
                assert(self@ =~= (Model {
                    committed: cleared.committed + words.take(i + 1).map_values(
                        |w: Seq<char>| Some(w),
                    ),
                    ..cleared
                }));
            }
            i += 1;
        }
        if n > 0 {
            self.segment_starts.push(base);
        }
        proof {
            assert(words.take(n as int) =~= words);
            assert(self@ =~= before.after_batch_final(text@));
            assert(self.hidden_is_pending());
        }
    }

    /// Erase the last visible word. The last word of the live partial if one
    /// is visible, else the last committed token. Returns true if a word was
    /// erased.
    pub fn erase_last(&mut self) -> (done: bool)
        requires
            old(self).wf(),
        ensures
            final(self).wf(),
            done == (old(self)@.erasable() is Some),
            final(self)@ == old(self)@.after_erase(),
    {
        broadcast use vstd::std_specs::btree::group_btree_axioms;

        proof {
            self@.erase_keeps_wf();
        }
        let excluded = self.excluded_positions();
        // The last visible partial token, scanning from the tail.
        let mut i: usize = self.partial_tokens.len();
        while i > 0
            invariant
                *self == *old(self),
                self.wf(),
                self@.after_erase().wf(),
                i <= self@.partial.len(),
                forall|k: usize| #[trigger] excluded@.contains(k) <==> self@.excludes(k as int),
                self@.last_position(self@.partial.len() as int) == self@.last_position(i as int),
            decreases i,
        {
            i -= 1;
            assert(excluded@.contains(i) <==> self@.excludes(i as int));
            if !excluded.contains(&i) {
                let ghost before = self@;
                self.undo.push(Undo::Partial(i));
                proof {
                    assert(self@ =~= before.after_erase());
                    before.lemma_push_pending(Pending::Partial(i as int));
                    assert forall|k: usize| #[trigger]
                        self.hidden@.contains(k) <==> self@.hides(k as int) by {
                        assert(self.hidden@.contains(k) <==> before.hides(k as int));
                    }
                }
                return true;
            }
        }
        // The last visible committed slot, scanning from the tail.
        let mut i: usize = self.committed.len();
        while i > 0
            invariant
                *self == *old(self),
                self.wf(),
                self@.after_erase().wf(),
                i <= self@.committed.len(),
                self@.last_position(self@.partial.len() as int) is None,
                self@.last_slot(self@.committed.len() as int) == self@.last_slot(i as int),
            decreases i,
        {
            i -= 1;
            assert(self.hidden@.contains(i) <==> self@.hides(i as int));
            assert(self@.committed[i as int] == slot_view(self.committed@[i as int]));
            if self.committed[i].is_some() && !self.hidden.contains(&i) {
                let ghost before = self@;
                let ghost hidden_before = self.hidden@;
                self.hidden.insert(i);
                self.undo.push(Undo::Committed(i));
                proof {
                    assert(self@ =~= before.after_erase());
                    before.lemma_push_pending(Pending::Committed(i as int));
                    assert forall|k: usize| #[trigger]
                        self.hidden@.contains(k) <==> self@.hides(k as int) by {
                        assert(hidden_before.contains(k) <==> before.hides(k as int));
                    }
                }
                return true;
            }
        }
        false
    }

    /// Restore the last erased word, LIFO. Returns true if an erase was
    /// undone. Restoring a committed slot puts the word back at its original
    /// position; restoring a partial position whose token the decoder since
    /// dropped is a no-op on the visible text but still consumes the undo
    /// entry.
    pub fn undo_last(&mut self) -> (done: bool)
        requires
            old(self).wf(),
        ensures
            final(self).wf(),
            done == (old(self)@.pending.len() > 0),
            final(self)@ == old(self)@.after_undo(),
    {
        broadcast use vstd::std_specs::btree::group_btree_axioms;

        proof {
            self@.undo_keeps_wf();
            if self@.pending.len() > 0 {
                self@.lemma_pop_pending();
            }
        }
        let ghost before = self@;
        let ghost hidden_before = self.hidden@;
        match self.undo.pop() {
            Some(u) => {
                assert(u@ == before.pending.last());
                if let Undo::Committed(i) = u {
                    self.hidden.remove(&i);
                }
                proof {
                    assert(self@ =~= before.after_undo());
                    assert forall|k: usize| #[trigger]
                        self.hidden@.contains(k) <==> self@.hides(k as int) by {
                        assert(hidden_before.contains(k) <==> before.hides(k as int));
                    }
                }
                true
            },
            None => false,
        }
    }
}

} // verus!
