//! What a transcript stands for: its words, which of them are erased, and
//! what each operation makes of them.
use vstd::prelude::*;

use crate::injector;
use crate::text;

verus! {

/// A word that is erased and can still be restored.
pub enum Pending {
    /// The word in this slot of the committed sequence.
    Committed(int),
    /// The word at this position of the utterance in progress.
    Partial(int),
}

/// What a transcript stands for.
#[verifier::ext_equal]
pub struct Model {
    /// The slots of the committed segments, in order: a raw word, or `None`
    /// where a word was erased for good.
    pub committed: Seq<Option<Seq<char>>>,
    /// The slot at which each committed segment starts.
    pub starts: Seq<int>,
    /// The erased words that can be restored, the latest erased last.
    pub pending: Seq<Pending>,
    /// The words of the latest partial of the utterance in progress.
    pub partial: Seq<Seq<char>>,
    /// Whether an utterance is in progress.
    pub active: bool,
    /// The most words that any partial of this utterance has had.
    pub longest: nat,
}

impl Model {
    /// Whether an erasure that can be undone hides the committed slot `i`.
    pub open spec fn hides(self, i: int) -> bool {
        self.pending.contains(Pending::Committed(i))
    }

    /// Whether an erasure that can be undone hides position `i` of the
    /// partial.
    pub open spec fn excludes(self, i: int) -> bool {
        self.pending.contains(Pending::Partial(i))
    }

    /// Whether the committed slot `i` is visible.
    pub open spec fn shows(self, i: int) -> bool {
        0 <= i < self.committed.len() && self.committed[i] is Some && !self.hides(i)
    }

    /// The visible words of the slots from `a` to `b`.
    pub open spec fn slot_words(self, a: int, b: int) -> Seq<Seq<char>>
        decreases b - a,
    {
        if b <= a {
            Seq::empty()
        } else if self.shows(b - 1) {
            self.slot_words(a, b - 1).push(self.committed[b - 1]->0)
        } else {
            self.slot_words(a, b - 1)
        }
    }

    /// The visible words among the first `n` of the partial.
    pub open spec fn partial_words(self, n: int) -> Seq<Seq<char>>
        decreases n,
    {
        if n <= 0 {
            Seq::empty()
        } else if self.excludes(n - 1) {
            self.partial_words(n - 1)
        } else {
            self.partial_words(n - 1).push(self.partial[n - 1])
        }
    }

    /// All visible words: the committed ones and those of the partial.
    pub open spec fn visible_words(self) -> Seq<Seq<char>> {
        self.slot_words(0, self.committed.len() as int) + self.partial_words(
            self.partial.len() as int,
        )
    }

    /// The slot after the last one of segment `k`.
    pub open spec fn segment_end(self, k: int) -> int {
        if k + 1 < self.starts.len() {
            self.starts[k + 1]
        } else {
            self.committed.len() as int
        }
    }

    /// The visible text of segment `k`: its visible words with single spaces
    /// between them, the first letter capitalized.
    pub open spec fn segment_text(self, k: int) -> Seq<char> {
        injector::capitalized(text::join(self.slot_words(self.starts[k], self.segment_end(k))))
    }

    /// The texts of the first `n` segments that are not empty.
    pub open spec fn segment_texts(self, n: int) -> Seq<Seq<char>>
        decreases n,
    {
        if n <= 0 {
            Seq::empty()
        } else if self.segment_text(n - 1).len() == 0 {
            self.segment_texts(n - 1)
        } else {
            self.segment_texts(n - 1).push(self.segment_text(n - 1))
        }
    }

    /// The committed text: the texts of its segments, one space between them.
    pub open spec fn committed_text(self) -> Seq<char> {
        text::join(self.segment_texts(self.starts.len() as int))
    }

    /// The visible part of the live partial, raw.
    pub open spec fn visible_partial(self) -> Seq<char> {
        text::join(self.partial_words(self.partial.len() as int))
    }

    /// The committed text and the visible partial, raw.
    pub open spec fn display(self) -> Seq<char> {
        if self.visible_partial().len() == 0 {
            self.committed_text()
        } else if self.committed_text().len() == 0 {
            self.visible_partial()
        } else {
            self.committed_text().push(' ') + self.visible_partial()
        }
    }

    /// The committed text and, while there is a visible partial, `stable`
    /// with its first letter capitalized.
    pub open spec fn buffer_target(self, stable: Seq<char>) -> Seq<char> {
        if self.visible_partial().len() == 0 || stable.len() == 0 {
            self.committed_text()
        } else if self.committed_text().len() == 0 {
            injector::capitalized(stable)
        } else {
            self.committed_text().push(' ') + injector::capitalized(stable)
        }
    }

    /// The pending erasures retired: hidden slots become gaps.
    pub open spec fn retired(self) -> Model {
        Model {
            committed: Seq::new(
                self.committed.len(),
                |i: int|
                    if self.hides(i) {
                        None
                    } else {
                        self.committed[i]
                    },
            ),
            pending: Seq::empty(),
            ..self
        }
    }

    /// The transcript before any text.
    pub open spec fn fresh() -> Model {
        Model {
            committed: Seq::empty(),
            starts: Seq::empty(),
            pending: Seq::empty(),
            partial: Seq::empty(),
            active: false,
            longest: 0,
        }
    }

    /// After a partial with this text. The first partial of an utterance
    /// retires the erasures that are still pending from the one before.
    pub open spec fn after_partial(self, text: Seq<char>) -> Model {
        let before = if self.active {
            self
        } else {
            self.retired()
        };
        let tokens = text::words(text);
        Model {
            partial: tokens,
            active: true,
            longest: if tokens.len() > self.longest {
                tokens.len()
            } else {
                self.longest
            },
            ..before
        }
    }

    /// The pending erasures once the utterance is committed with `n` words
    /// from slot `base` on: those of its words become erasures of their
    /// slots, and those past the last word are dropped.
    pub open spec fn carried(pending: Seq<Pending>, base: int, n: int) -> Seq<Pending>
        decreases pending.len(),
    {
        if pending.len() == 0 {
            Seq::empty()
        } else {
            let rest = Self::carried(pending.drop_last(), base, n);
            match pending.last() {
                Pending::Committed(i) => rest.push(Pending::Committed(i)),
                Pending::Partial(i) => if i < n {
                    rest.push(Pending::Committed(base + i))
                } else {
                    rest
                },
            }
        }
    }

    /// After the final of a streamed utterance. A final with more words than
    /// any partial of it retires the pending erasures.
    pub open spec fn after_final(self, text: Seq<char>) -> Model {
        let tokens = text::words(text);
        let base = self.committed.len() as int;
        let grown = tokens.len() > self.longest;
        let slots = Seq::new(
            tokens.len(),
            |i: int|
                if grown && self.excludes(i) {
                    None
                } else {
                    Some(tokens[i])
                },
        );
        Model {
            committed: (if grown {
                self.retired().committed
            } else {
                self.committed
            }) + slots,
            starts: if tokens.len() > 0 {
                self.starts.push(base)
            } else {
                self.starts
            },
            pending: if grown {
                Seq::empty()
            } else {
                Self::carried(self.pending, base, tokens.len() as int)
            },
            partial: Seq::empty(),
            active: false,
            longest: 0,
        }
    }

    /// After the final of an utterance without partials: the pending
    /// erasures are retired.
    pub open spec fn after_batch_final(self, text: Seq<char>) -> Model {
        let tokens = text::words(text);
        Model {
            committed: self.retired().committed + tokens.map_values(|w: Seq<char>| Some(w)),
            starts: if tokens.len() > 0 {
                self.starts.push(self.committed.len() as int)
            } else {
                self.starts
            },
            pending: Seq::empty(),
            partial: Seq::empty(),
            active: false,
            longest: 0,
        }
    }

    /// The last visible one of the first `n` positions of the partial.
    pub open spec fn last_position(self, n: int) -> Option<int>
        decreases n,
    {
        if n <= 0 {
            None
        } else if !self.excludes(n - 1) {
            Some(n - 1)
        } else {
            self.last_position(n - 1)
        }
    }

    /// The last visible one of the first `n` committed slots.
    pub open spec fn last_slot(self, n: int) -> Option<int>
        decreases n,
    {
        if n <= 0 {
            None
        } else if self.shows(n - 1) {
            Some(n - 1)
        } else {
            self.last_slot(n - 1)
        }
    }

    /// What the next erase hides: the last visible word of the partial, else
    /// the last visible committed word.
    pub open spec fn erasable(self) -> Option<Pending> {
        match self.last_position(self.partial.len() as int) {
            Some(i) => Some(Pending::Partial(i)),
            None => match self.last_slot(self.committed.len() as int) {
                Some(i) => Some(Pending::Committed(i)),
                None => None,
            },
        }
    }

    /// After an erase.
    pub open spec fn after_erase(self) -> Model {
        match self.erasable() {
            Some(p) => Model { pending: self.pending.push(p), ..self },
            None => self,
        }
    }

    /// After an undo.
    pub open spec fn after_undo(self) -> Model {
        if self.pending.len() == 0 {
            self
        } else {
            Model { pending: self.pending.drop_last(), ..self }
        }
    }

    /// What holds of every transcript.
    pub open spec fn wf(self) -> bool {
        &&& self.pending.no_duplicates()
        &&& forall|i: int| #[trigger]
            self.hides(i) ==> 0 <= i < self.committed.len() && self.committed[i] is Some
        &&& forall|i: int| #[trigger] self.excludes(i) ==> 0 <= i < self.longest
        &&& self.partial.len() <= self.longest
        &&& !self.active ==> self.longest == 0
        &&& self.segments_wf()
        &&& self.words_wf()
    }

    /// The segments follow each other without a gap and none is empty.
    pub open spec fn segments_wf(self) -> bool {
        &&& self.committed.len() > 0 ==> self.starts.len() > 0
        &&& self.starts.len() > 0 ==> self.starts[0] == 0
        &&& forall|k: int|
            0 <= k < self.starts.len() ==> self.starts[k] < #[trigger] self.segment_end(k)
        &&& forall|k: int|
            0 <= k < self.starts.len() ==> 0 <= #[trigger] self.starts[k] < self.committed.len()
    }

    /// Every stored word is a word.
    pub open spec fn words_wf(self) -> bool {
        &&& forall|i: int|
            0 <= i < self.committed.len() && (#[trigger] self.committed[i]) is Some
                ==> text::is_word(self.committed[i]->0)
        &&& forall|i: int| 0 <= i < self.partial.len() ==> text::is_word(#[trigger] self.partial[i])
    }
}

impl Model {
    /// What `last_position` finds.
    proof fn lemma_last_position(self, n: int)
        ensures
            match self.last_position(n) {
                Some(i) => 0 <= i < n && !self.excludes(i) && forall|k: int|
                    i < k < n ==> self.excludes(k),
                None => forall|k: int| 0 <= k < n ==> self.excludes(k),
            },
        decreases n,
    {
        if n > 0 && self.excludes(n - 1) {
            self.lemma_last_position(n - 1);
        }
    }

    /// What `last_slot` finds.
    proof fn lemma_last_slot(self, n: int)
        ensures
            match self.last_slot(n) {
                Some(i) => 0 <= i < n && self.shows(i) && forall|k: int|
                    i < k < n ==> !self.shows(k),
                None => forall|k: int| 0 <= k < n ==> !self.shows(k),
            },
        decreases n,
    {
        if n > 0 && !self.shows(n - 1) {
            self.lemma_last_slot(n - 1);
        }
    }

    /// Pushing one erasure hides that one more word.
    pub proof fn lemma_push_pending(self, p: Pending)
        ensures
            forall|q: Pending| #[trigger]
                self.pending.push(p).contains(q) <==> q == p || self.pending.contains(q),
    {
        let t = self.pending.push(p);
        assert(t[t.len() - 1] == p);
        assert forall|q: Pending| #[trigger] t.contains(q) <==> q == p || self.pending.contains(
            q,
        ) by {
            if self.pending.contains(q) {
                let j = choose|j: int| 0 <= j < self.pending.len() && self.pending[j] == q;
                assert(t[j] == q);
            }
        }
    }

    /// Popping one erasure shows that one word again.
    pub proof fn lemma_pop_pending(self)
        requires
            self.pending.len() > 0,
            self.pending.no_duplicates(),
        ensures
            forall|q: Pending| #[trigger]
                self.pending.drop_last().contains(q) <==> q != self.pending.last()
                    && self.pending.contains(q),
    {
        let t = self.pending.drop_last();
        assert forall|q: Pending| #[trigger] t.contains(q) <==> q != self.pending.last()
            && self.pending.contains(q) by {
            if t.contains(q) {
                let j = choose|j: int| 0 <= j < t.len() && t[j] == q;
                assert(self.pending[j] == q);
            }
            if q != self.pending.last() && self.pending.contains(q) {
                let j = choose|j: int| 0 <= j < self.pending.len() && self.pending[j] == q;
                assert(t[j] == q);
            }
        }
    }

    /// An erase keeps the invariant.
    pub proof fn erase_keeps_wf(self)
        requires
            self.wf(),
        ensures
            self.after_erase().wf(),
    {
        self.lemma_last_position(self.partial.len() as int);
        self.lemma_last_slot(self.committed.len() as int);
        if let Some(p) = self.erasable() {
            self.lemma_push_pending(p);
            let m = self.after_erase();
            assert(m.pending.no_duplicates());
            assert forall|i: int| #[trigger] m.hides(i) implies 0 <= i < m.committed.len()
                && m.committed[i] is Some by {
                if Pending::Committed(i) != p {
                    assert(self.hides(i));
                }
            }
            assert forall|i: int| #[trigger] m.excludes(i) implies 0 <= i < m.longest by {
                if Pending::Partial(i) != p {
                    assert(self.excludes(i));
                }
            }
            assert(forall|k: int| m.segment_end(k) == self.segment_end(k));
        }
    }

    /// An undo keeps the invariant.
    pub proof fn undo_keeps_wf(self)
        requires
            self.wf(),
        ensures
            self.after_undo().wf(),
    {
        if self.pending.len() > 0 {
            self.lemma_pop_pending();
            let m = self.after_undo();
            assert(forall|i: int| m.hides(i) ==> self.hides(i));
            assert(forall|i: int| m.excludes(i) ==> self.excludes(i));
            assert(forall|k: int| m.segment_end(k) == self.segment_end(k));
        }
    }
}

impl Model {
    /// Which erasures `carried` holds.
    pub proof fn lemma_carried(pending: Seq<Pending>, base: int, n: int)
        ensures
            forall|i: int| !Self::carried(pending, base, n).contains(Pending::Partial(i)),
            forall|j: int| #[trigger]
                Self::carried(pending, base, n).contains(Pending::Committed(j)) <==> (
                pending.contains(Pending::Committed(j)) || (j - base < n && pending.contains(
                    Pending::Partial(j - base),
                ))),
        decreases pending.len(),
    {
        let all = Self::carried(pending, base, n);
        if pending.len() > 0 {
            let init = pending.drop_last();
            let last = pending.last();
            let rest = Self::carried(init, base, n);
            Self::lemma_carried(init, base, n);
            assert(pending == init.push(last));
            assert forall|q: Pending| #[trigger]
                pending.contains(q) <==> q == last || init.contains(q) by {
                vstd::seq_lib::lemma_seq_contains_after_push(init, last, q);
            }
            let added = match last {
                Pending::Committed(i) => Some(Pending::Committed(i)),
                Pending::Partial(i) => if i < n {
                    Some(Pending::Committed(base + i))
                } else {
                    None
                },
            };
            assert(all == match added {
                Some(q) => rest.push(q),
                None => rest,
            });
            assert forall|q: Pending| #[trigger]
                all.contains(q) <==> added == Some(q) || rest.contains(q) by {
                if let Some(a) = added {
                    vstd::seq_lib::lemma_seq_contains_after_push(rest, a, q);
                }
            }
            assert forall|j: int| #[trigger] all.contains(Pending::Committed(j)) <==> (
            pending.contains(Pending::Committed(j)) || (j - base < n && pending.contains(
                Pending::Partial(j - base),
            ))) by {
                assert(rest.contains(Pending::Committed(j)) <==> (init.contains(
                    Pending::Committed(j),
                ) || (j - base < n && init.contains(Pending::Partial(j - base)))));
                assert(pending.contains(Pending::Committed(j)) <==> Pending::Committed(j) == last
                    || init.contains(Pending::Committed(j)));
                assert(pending.contains(Pending::Partial(j - base)) <==> Pending::Partial(
                    j - base,
                ) == last || init.contains(Pending::Partial(j - base)));
            }
        }
    }

    /// `carried` holds no erasure twice.
    proof fn lemma_carried_no_duplicates(pending: Seq<Pending>, base: int, n: int)
        requires
            pending.no_duplicates(),
            forall|i: int| #[trigger] pending.contains(Pending::Committed(i)) ==> i < base,
            forall|i: int| #[trigger] pending.contains(Pending::Partial(i)) ==> 0 <= i,
        ensures
            Self::carried(pending, base, n).no_duplicates(),
        decreases pending.len(),
    {
        if pending.len() > 0 {
            let init = pending.drop_last();
            let last = pending.last();
            let rest = Self::carried(init, base, n);
            assert(pending == init.push(last));
            assert forall|q: Pending| #[trigger]
                pending.contains(q) <==> q == last || init.contains(q) by {
                vstd::seq_lib::lemma_seq_contains_after_push(init, last, q);
            }
            assert(!init.contains(last));
            assert forall|i: int| #[trigger] init.contains(Pending::Committed(i)) implies i
                < base by {
                assert(pending.contains(Pending::Committed(i)));
            }
            assert forall|i: int| #[trigger] init.contains(Pending::Partial(i)) implies 0 <= i by {
                assert(pending.contains(Pending::Partial(i)));
            }
            Self::lemma_carried_no_duplicates(init, base, n);
            Self::lemma_carried(init, base, n);
            match last {
                Pending::Committed(i) => {
                    assert(pending.contains(Pending::Committed(i)));
                    assert(!init.contains(Pending::Partial(i - base)));
                    assert(!rest.contains(Pending::Committed(i)));
                },
                Pending::Partial(i) => {
                    assert(pending.contains(Pending::Partial(i)));
                    assert(!init.contains(Pending::Committed(base + i)));
                    assert(base + i - base == i);
                    assert(!rest.contains(Pending::Committed(base + i)));
                },
            }
        }
    }

    /// Retiring the pending erasures keeps the invariant.
    proof fn lemma_retired_wf(self)
        requires
            self.wf(),
        ensures
            self.retired().wf(),
    {
        let m = self.retired();
        assert(forall|k: int| m.segment_end(k) == self.segment_end(k));
    }

    /// A partial keeps the invariant.
    pub proof fn partial_keeps_wf(self, text: Seq<char>)
        requires
            self.wf(),
        ensures
            self.after_partial(text).wf(),
    {
        self.lemma_retired_wf();
        text::lemma_words_are_words(text);
        let m = self.after_partial(text);
        let before = if self.active {
            self
        } else {
            self.retired()
        };
        assert(forall|i: int| m.hides(i) ==> before.hides(i));
        assert(forall|i: int| m.excludes(i) ==> before.excludes(i));
        assert(forall|k: int| m.segment_end(k) == before.segment_end(k));
    }

    /// The invariant of the segments once the slots `base` and up are
    /// appended as one segment.
    proof fn lemma_segments_wf(self, m: Model)
        requires
            self.segments_wf(),
            m.committed.len() >= self.committed.len(),
            m.starts == if m.committed.len() > self.committed.len() {
                self.starts.push(self.committed.len() as int)
            } else {
                self.starts
            },
        ensures
            m.segments_wf(),
    {
        assert forall|k: int| 0 <= k < m.starts.len() implies m.starts[k] < #[trigger] m.segment_end(
            k,
        ) by {
            if k < self.starts.len() {
                assert(m.segment_end(k) == self.segment_end(k));
            }
        }
    }

    /// The final of a streamed utterance keeps the invariant.
    pub proof fn final_keeps_wf(self, text: Seq<char>)
        requires
            self.wf(),
        ensures
            self.after_final(text).wf(),
    {
        text::lemma_words_are_words(text);
        let m = self.after_final(text);
        let base = self.committed.len() as int;
        let n = text::words(text).len() as int;
        assert forall|i: int| #[trigger] self.pending.contains(Pending::Committed(i)) implies i
            < base by {
            assert(self.hides(i));
        }
        assert forall|i: int| #[trigger] self.pending.contains(Pending::Partial(i)) implies 0
            <= i by {
            assert(self.excludes(i));
        }
        Self::lemma_carried(self.pending, base, n);
        Self::lemma_carried_no_duplicates(self.pending, base, n);
        self.lemma_segments_wf(m);
        assert forall|i: int| #[trigger] m.hides(i) implies 0 <= i < m.committed.len()
            && m.committed[i] is Some by {
            if self.pending.contains(Pending::Committed(i)) {
                assert(self.hides(i));
            } else {
                assert(self.excludes(i - base));
            }
        }
    }

    /// The final of an utterance without partials keeps the invariant.
    pub proof fn batch_final_keeps_wf(self, text: Seq<char>)
        requires
            self.wf(),
        ensures
            self.after_batch_final(text).wf(),
    {
        text::lemma_words_are_words(text);
        self.lemma_segments_wf(self.after_batch_final(text));
    }
}

/// Erasing and restoring.
impl Model {
    /// After `n` erases.
    pub open spec fn after_erases(self, n: nat) -> Model
        decreases n,
    {
        if n == 0 {
            self
        } else {
            self.after_erases((n - 1) as nat).after_erase()
        }
    }

    /// After `n` undos.
    pub open spec fn after_undos(self, n: nat) -> Model
        decreases n,
    {
        if n == 0 {
            self
        } else {
            self.after_undo().after_undos((n - 1) as nat)
        }
    }

    /// Two models that show the same slots show the same words.
    proof fn lemma_same_slot_words(self, other: Model, a: int, b: int)
        requires
            forall|i: int|
                a <= i < b ==> (#[trigger] self.shows(i) <==> other.shows(i)) && (self.shows(i)
                    ==> self.committed[i] == other.committed[i]),
        ensures
            self.slot_words(a, b) == other.slot_words(a, b),
        decreases b - a,
    {
        if a < b {
            self.lemma_same_slot_words(other, a, b - 1);
            assert(self.shows(b - 1) <==> other.shows(b - 1));
        }
    }

    /// Two models that exclude the same of the first `n` positions show the
    /// same words of them.
    proof fn lemma_same_partial_words(self, other: Model, n: int)
        requires
            forall|i: int|
                0 <= i < n ==> (#[trigger] self.excludes(i) <==> other.excludes(i)) && (
                !self.excludes(i) ==> self.partial[i] == other.partial[i]),
        ensures
            self.partial_words(n) == other.partial_words(n),
        decreases n,
    {
        if 0 < n {
            self.lemma_same_partial_words(other, n - 1);
            assert(self.excludes(n - 1) <==> other.excludes(n - 1));
        }
    }

    /// The visible words of adjacent slots are those of the first part and
    /// then those of the second.
    proof fn lemma_slot_words_concat(self, a: int, b: int, c: int)
        requires
            a <= b <= c,
        ensures
            self.slot_words(a, c) == self.slot_words(a, b) + self.slot_words(b, c),
        decreases c - b,
    {
        if b < c {
            self.lemma_slot_words_concat(a, b, c - 1);
            assert(self.slot_words(a, c) =~= self.slot_words(a, b) + self.slot_words(b, c));
        } else {
            assert(self.slot_words(b, c) =~= Seq::<Seq<char>>::empty());
            assert(self.slot_words(a, c) =~= self.slot_words(a, b) + self.slot_words(b, c));
        }
    }

    /// Slots of which none is visible have no visible words.
    proof fn lemma_no_slot_words(self, a: int, b: int)
        requires
            forall|i: int| a <= i < b ==> !#[trigger] self.shows(i),
        ensures
            self.slot_words(a, b) == Seq::<Seq<char>>::empty(),
        decreases b - a,
    {
        if a < b {
            assert(!self.shows(b - 1));
            self.lemma_no_slot_words(a, b - 1);
        }
    }

    /// The visible words up to the end of the partial are those before
    /// position `n` when every later position is excluded.
    proof fn lemma_partial_words_end(self, n: int, end: int)
        requires
            0 <= n <= end,
            forall|i: int| n <= i < end ==> #[trigger] self.excludes(i),
        ensures
            self.partial_words(end) == self.partial_words(n),
        decreases end - n,
    {
        if n < end {
            assert(self.excludes(end - 1));
            self.lemma_partial_words_end(n, end - 1);
        }
    }

    /// An erase succeeds exactly when a word is visible, and then removes the
    /// last visible word and no other.
    pub proof fn erase_removes_the_last_word(self)
        ensures
            self.erasable() is Some <==> self.visible_words().len() > 0,
            self.erasable() is Some ==> self.after_erase().visible_words()
                == self.visible_words().drop_last(),
            self.erasable() is None ==> self.after_erase() == self,
    {
        let slots = self.committed.len() as int;
        let n = self.partial.len() as int;
        self.lemma_last_position(n);
        self.lemma_last_slot(slots);
        let m = self.after_erase();
        match self.last_position(n) {
            Some(p) => {
                self.lemma_push_pending(Pending::Partial(p));
                self.lemma_partial_words_end(p + 1, n);
                assert(self.partial_words(p + 1) == self.partial_words(p).push(self.partial[p]));
                assert forall|i: int| p <= i < n implies #[trigger] m.excludes(i) by {
                    if p < i {
                        assert(self.excludes(i));
                    }
                }
                m.lemma_partial_words_end(p, n);
                assert forall|i: int| 0 <= i < p implies (#[trigger] self.excludes(i)
                    <==> m.excludes(i)) by {}
                self.lemma_same_partial_words(m, p);
                assert forall|i: int| #[trigger] self.shows(i) <==> m.shows(i) by {
                    assert(m.hides(i) <==> self.hides(i));
                }
                self.lemma_same_slot_words(m, 0, slots);
                assert(m.visible_words() =~= self.visible_words().drop_last());
            },
            None => {
                self.lemma_partial_words_end(0, n);
                match self.last_slot(slots) {
                    Some(k) => {
                        self.lemma_push_pending(Pending::Committed(k));
                        self.lemma_slot_words_concat(0, k + 1, slots);
                        self.lemma_no_slot_words(k + 1, slots);
                        assert forall|i: int| k <= i < slots implies !#[trigger] m.shows(i) by {
                            if k < i {
                                assert(!self.shows(i));
                                assert(m.hides(i) <==> self.hides(i));
                            }
                        }
                        m.lemma_slot_words_concat(0, k, slots);
                        m.lemma_no_slot_words(k, slots);
                        assert forall|i: int| 0 <= i < k implies (#[trigger] self.shows(i)
                            <==> m.shows(i)) by {
                            assert(m.hides(i) <==> self.hides(i));
                        }
                        self.lemma_same_slot_words(m, 0, k);
                        assert forall|i: int| 0 <= i < n implies #[trigger] m.excludes(i) by {
                            assert(self.excludes(i));
                        }
                        m.lemma_partial_words_end(0, n);
                        assert(m.visible_words() =~= self.visible_words().drop_last());
                    },
                    None => {
                        self.lemma_no_slot_words(0, slots);
                        assert(self.visible_words() =~= Seq::<Seq<char>>::empty());
                    },
                }
            },
        }
    }

    /// Undoing an erase gives back the transcript from before it.
    pub proof fn undo_reverts_an_erase(self)
        requires
            self.erasable() is Some,
        ensures
            self.after_erase().pending.len() > 0,
            self.after_erase().after_undo() == self,
    {
        let p = self.erasable()->0;
        assert(self.pending.push(p).drop_last() =~= self.pending);
    }

    /// Several erases remove that many words from the end of the visible
    /// text, and each undo after them brings back one, the last erased first.
    pub proof fn undos_revert_erases_in_reverse_order(self, n: nat, k: nat)
        requires
            k <= n <= self.visible_words().len(),
        ensures
            self.after_erases(n).visible_words() == self.visible_words().take(
                self.visible_words().len() - n,
            ),
            self.after_erases(n).after_undos(k) == self.after_erases((n - k) as nat),
        decreases n,
    {
        let words = self.visible_words();
        if n == 0 {
            assert(words.take(words.len() as int) =~= words);
        } else {
            let before = self.after_erases((n - 1) as nat);
            self.undos_revert_erases_in_reverse_order((n - 1) as nat, 0);
            before.erase_removes_the_last_word();
            assert(before.visible_words().drop_last() =~= words.take(words.len() - n));
            if k > 0 {
                before.undo_reverts_an_erase();
                self.undos_revert_erases_in_reverse_order((n - 1) as nat, (k - 1) as nat);
            }
        }
    }

    /// Restoring a committed word shows that one slot again, at its place,
    /// and changes no other.
    pub proof fn undo_restores_a_slot_in_place(self, i: int)
        requires
            self.wf(),
            self.pending.len() > 0,
            self.pending.last() == Pending::Committed(i),
        ensures
            !self.shows(i),
            self.after_undo().shows(i),
            self.after_undo().committed == self.committed,
            forall|j: int| j != i ==> (#[trigger] self.after_undo().shows(j) <==> self.shows(j)),
            self.after_undo().visible_partial() == self.visible_partial(),
    {
        self.lemma_pop_pending();
        assert(self.pending[self.pending.len() - 1] == Pending::Committed(i));
        assert(self.hides(i));
        let m = self.after_undo();
        assert forall|j: int| j != i implies (#[trigger] m.shows(j) <==> self.shows(j)) by {
            assert(m.hides(j) <==> self.hides(j));
        }
        assert forall|j: int| #[trigger] m.excludes(j) <==> self.excludes(j) by {}
        m.lemma_same_partial_words(self, self.partial.len() as int);
    }

    /// Restoring a word of the partial includes that one position again, and
    /// changes nothing else. Where the decoder has dropped the position the
    /// visible words stay as they are.
    pub proof fn undo_restores_a_position_in_place(self, i: int)
        requires
            self.wf(),
            self.pending.len() > 0,
            self.pending.last() == Pending::Partial(i),
        ensures
            self.excludes(i),
            !self.after_undo().excludes(i),
            self.after_undo().partial == self.partial,
            forall|j: int|
                j != i ==> (#[trigger] self.after_undo().excludes(j) <==> self.excludes(j)),
            self.after_undo().committed_text() == self.committed_text(),
            i >= self.partial.len() ==> self.after_undo().visible_words() == self.visible_words(),
            i >= self.partial.len() ==> self.after_undo().display() == self.display(),
    {
        self.lemma_pop_pending();
        assert(self.pending[self.pending.len() - 1] == Pending::Partial(i));
        let m = self.after_undo();
        assert forall|j: int| j != i implies (#[trigger] m.excludes(j) <==> self.excludes(j)) by {}
        assert forall|j: int| #[trigger] m.shows(j) <==> self.shows(j) by {
            assert(m.hides(j) <==> self.hides(j));
        }
        m.lemma_same_committed_text(self);
        m.lemma_same_slot_words(self, 0, self.committed.len() as int);
        if i >= self.partial.len() {
            m.lemma_same_partial_words(self, self.partial.len() as int);
        }
    }

    /// Two models with the same segments that show the same slots have the
    /// same texts of their first `n` segments.
    proof fn lemma_same_segment_texts(self, other: Model, n: int)
        requires
            n <= self.starts.len(),
            n <= other.starts.len(),
            forall|k: int| 0 <= k < n ==> #[trigger] self.starts[k] == other.starts[k],
            forall|k: int| 0 <= k < n ==> #[trigger] self.segment_end(k) == other.segment_end(k),
            forall|k: int, i: int|
                #![trigger self.segment_end(k), self.shows(i)]
                0 <= k < n && i < self.segment_end(k) ==> (self.shows(i) <==> other.shows(i)) && (
                self.shows(i) ==> self.committed[i] == other.committed[i]),
        ensures
            self.segment_texts(n) == other.segment_texts(n),
        decreases n,
    {
        if 0 < n {
            self.lemma_same_segment_texts(other, n - 1);
            let k = n - 1;
            assert(self.starts[k] == other.starts[k]);
            assert(self.segment_end(k) == other.segment_end(k));
            self.lemma_same_slot_words(other, self.starts[k], self.segment_end(k));
        }
    }

    /// Two models with the same segments that show the same slots have the
    /// same committed text.
    proof fn lemma_same_committed_text(self, other: Model)
        requires
            self.starts == other.starts,
            self.committed.len() == other.committed.len(),
            forall|i: int|
                (#[trigger] self.shows(i) <==> other.shows(i)) && (self.shows(i)
                    ==> self.committed[i] == other.committed[i]),
        ensures
            self.committed_text() == other.committed_text(),
    {
        assert forall|k: int| 0 <= k < self.starts.len() implies #[trigger] self.segment_end(k)
            == other.segment_end(k) by {}
        self.lemma_same_segment_texts(other, self.starts.len() as int);
    }
}

/// Utterance boundaries.
impl Model {
    /// While an utterance is in progress a partial retires no erasure and
    /// leaves the committed text alone.
    pub proof fn partial_keeps_erasures_within_an_utterance(self, text: Seq<char>)
        requires
            self.active,
        ensures
            self.after_partial(text).pending == self.pending,
            self.after_partial(text).committed == self.committed,
            self.after_partial(text).committed_text() == self.committed_text(),
    {
        let m = self.after_partial(text);
        assert forall|i: int| #[trigger] self.shows(i) <==> m.shows(i) by {
            assert(self.hides(i) <==> m.hides(i));
        }
        m.lemma_same_committed_text(self);
    }

    /// Retiring the pending erasures leaves nothing to undo and does not
    /// change the committed text.
    pub proof fn retiring_keeps_the_committed_text(self)
        ensures
            self.retired().pending.len() == 0,
            self.retired().committed_text() == self.committed_text(),
            self.retired().slot_words(0, self.committed.len() as int) == self.slot_words(
                0,
                self.committed.len() as int,
            ),
    {
        let m = self.retired();
        assert forall|i: int| #[trigger] m.shows(i) <==> self.shows(i) by {}
        m.lemma_same_committed_text(self);
        m.lemma_same_slot_words(self, 0, self.committed.len() as int);
    }

    /// The first partial of an utterance retires every erasure that is still
    /// pending: nothing can be undone, and the committed text stays.
    pub proof fn partial_retires_erasures_of_the_utterance_before(self, text: Seq<char>)
        requires
            !self.active,
        ensures
            self.after_partial(text).pending.len() == 0,
            self.after_partial(text).committed_text() == self.committed_text(),
            self.after_partial(text).visible_partial() == text::join(text::words(text)),
    {
        self.retiring_keeps_the_committed_text();
        let m = self.after_partial(text);
        let r = self.retired();
        assert forall|i: int| #[trigger] m.shows(i) <==> r.shows(i) by {
            assert(m.hides(i) <==> r.hides(i));
        }
        m.lemma_same_committed_text(r);
        m.lemma_all_partial_words(m.partial.len() as int);
        assert(m.partial.take(m.partial.len() as int) =~= m.partial);
    }

    /// Where no word is erased, all words of the partial are visible.
    pub proof fn partial_without_erasures_is_shown_whole(self)
        requires
            self.pending.len() == 0,
        ensures
            self.partial_words(self.partial.len() as int) == self.partial,
            self.visible_partial() == text::join(self.partial),
    {
        self.lemma_all_partial_words(self.partial.len() as int);
        assert(self.partial.take(self.partial.len() as int) =~= self.partial);
    }

    /// With nothing excluded all words of the partial are visible.
    proof fn lemma_all_partial_words(self, n: int)
        requires
            0 <= n <= self.partial.len(),
            forall|i: int| !#[trigger] self.excludes(i),
        ensures
            self.partial_words(n) == self.partial.take(n),
        decreases n,
    {
        if 0 < n {
            assert(!self.excludes(n - 1));
            self.lemma_all_partial_words(n - 1);
        }
        assert(self.partial_words(n) =~= self.partial.take(n));
    }

    /// The slots from `base` on, filled with the words of a partial and
    /// hidden where it is excluded, show what the partial shows.
    proof fn lemma_committed_partial(self, other: Model, base: int, n: int)
        requires
            0 <= n,
            base + n <= other.committed.len(),
            0 <= base,
            forall|i: int|
                #![trigger self.excludes(i)]
                0 <= i < n ==> (self.excludes(i) <==> !other.shows(base + i)) && (!self.excludes(i)
                    ==> other.committed[base + i] == Some(self.partial[i])),
        ensures
            other.slot_words(base, base + n) == self.partial_words(n),
        decreases n,
    {
        if 0 < n {
            self.lemma_committed_partial(other, base, n - 1);
            assert(self.excludes(n - 1) <==> !other.shows(base + (n - 1)));
        }
    }

    /// Which slots a final shows: of the slots before it those that were
    /// visible, and of its own those that a partial with its text would show.
    proof fn lemma_final_slots(self, text: Seq<char>)
        requires
            self.wf(),
        ensures
            forall|i: int|
                0 <= i < self.committed.len() ==> (#[trigger] self.after_final(text).shows(i)
                    <==> self.shows(i)) && (self.shows(i) ==> self.after_final(text).committed[i]
                    == self.committed[i]),
            self.after_final(text).slot_words(
                self.committed.len() as int,
                self.committed.len() + text::words(text).len() as int,
            ) == self.after_partial(text).partial_words(text::words(text).len() as int),
    {
        let m = self.after_final(text);
        let p = self.after_partial(text);
        let words = text::words(text);
        let base = self.committed.len() as int;
        let n = words.len() as int;
        let grown = n > self.longest;
        Self::lemma_carried(self.pending, base, n);
        assert forall|i: int| 0 <= i < base implies (#[trigger] m.shows(i) <==> self.shows(i)) && (
        self.shows(i) ==> m.committed[i] == self.committed[i]) by {
            if grown {
                assert(m.pending.len() == 0);
            } else {
                assert(m.hides(i) <==> self.hides(i)) by {
                    assert(!self.excludes(i - base));
                }
            }
        }
        assert forall|i: int| #![trigger p.excludes(i)] 0 <= i < n implies (p.excludes(i)
            <==> !m.shows(base + i)) && (!p.excludes(i) ==> m.committed[base + i] == Some(
            p.partial[i],
        )) by {
            assert(p.excludes(i) <==> self.excludes(i)) by {
                if !self.active {
                    assert(!self.excludes(i));
                }
            }
            assert(!self.hides(base + i));
            if !grown {
                assert(m.hides(base + i) <==> self.excludes(i)) by {
                    assert(base + i - base == i);
                }
            }
        }
        p.lemma_committed_partial(m, base, n);
    }

    /// A final shows the words that a partial with the same text shows: an
    /// erased word stays erased when its utterance is committed.
    pub proof fn final_shows_what_its_partial_showed(self, text: Seq<char>)
        requires
            self.wf(),
        ensures
            self.after_final(text).visible_words() == self.after_partial(text).visible_words(),
            self.after_final(text).visible_partial() == Seq::<char>::empty(),
    {
        let m = self.after_final(text);
        let p = self.after_partial(text);
        let base = self.committed.len() as int;
        let n = text::words(text).len() as int;
        self.lemma_final_slots(text);
        m.lemma_slot_words_concat(0, base, base + n);
        m.lemma_same_slot_words(self, 0, base);
        self.retiring_keeps_the_committed_text();
        let before = if self.active {
            self
        } else {
            self.retired()
        };
        assert forall|i: int| #[trigger] p.shows(i) <==> before.shows(i) by {
            assert(p.hides(i) <==> before.hides(i));
        }
        p.lemma_same_slot_words(before, 0, base);
        assert(m.visible_words() =~= p.visible_words());
    }

    /// A final leaves the text of the earlier segments alone and adds one
    /// segment of its own: the words that its partial showed, the first
    /// letter capitalized. A final without words adds no segment.
    pub proof fn final_adds_one_segment(self, text: Seq<char>)
        requires
            self.wf(),
        ensures
            self.after_final(text).segment_texts(self.starts.len() as int) == self.segment_texts(
                self.starts.len() as int,
            ),
            text::words(text).len() == 0 ==> self.after_final(text).starts == self.starts
                && self.after_final(text).committed_text() == self.committed_text(),
            text::words(text).len() > 0 ==> self.after_final(text).starts.len()
                == self.starts.len() + 1 && self.after_final(text).segment_text(
                self.starts.len() as int,
            ) == injector::capitalized(self.after_partial(text).visible_partial()),
    {
        let m = self.after_final(text);
        self.lemma_final_slots(text);
        self.lemma_earlier_segments(m);
    }

    /// Appending at most one segment keeps the texts of the segments before.
    proof fn lemma_earlier_segments(self, m: Model)
        requires
            self.segments_wf(),
            m.committed.len() >= self.committed.len(),
            m.starts == if m.committed.len() > self.committed.len() {
                self.starts.push(self.committed.len() as int)
            } else {
                self.starts
            },
            forall|i: int|
                0 <= i < self.committed.len() ==> (#[trigger] m.shows(i) <==> self.shows(i)) && (
                self.shows(i) ==> m.committed[i] == self.committed[i]),
        ensures
            m.segment_texts(self.starts.len() as int) == self.segment_texts(
                self.starts.len() as int,
            ),
    {
        assert forall|k: int| 0 <= k < self.starts.len() implies #[trigger] m.segment_end(k)
            == self.segment_end(k) by {
            if k + 1 == self.starts.len() && m.starts.len() > self.starts.len() {
                assert(m.starts[k + 1] == self.committed.len());
            }
        }
        assert forall|k: int, i: int|
            #![trigger m.segment_end(k), m.shows(i)]
            0 <= k < self.starts.len() && i < m.segment_end(k) implies (m.shows(i) <==> self.shows(
            i,
        )) && (m.shows(i) ==> m.committed[i] == self.committed[i]) by {
            assert(m.segment_end(k) <= self.committed.len()) by {
                if k + 1 < self.starts.len() {
                    assert(0 <= self.starts[k + 1] < self.committed.len());
                }
            }
        }
        m.lemma_same_segment_texts(self, self.starts.len() as int);
    }

    /// A committed text to which the text of one more segment is added.
    pub open spec fn appended(committed: Seq<char>, segment: Seq<char>) -> Seq<char> {
        if segment.len() == 0 {
            committed
        } else if committed.len() == 0 {
            segment
        } else {
            committed.push(' ') + segment
        }
    }

    /// One more segment only adds to the committed text.
    proof fn lemma_one_more_segment(self, m: Model)
        requires
            self.wf(),
            m.starts.len() == self.starts.len() + 1,
            m.segment_texts(self.starts.len() as int) == self.segment_texts(
                self.starts.len() as int,
            ),
        ensures
            m.committed_text() == Self::appended(
                self.committed_text(),
                m.segment_text(self.starts.len() as int),
            ),
    {
        let n = self.starts.len() as int;
        let texts = self.segment_texts(n);
        let t = m.segment_text(n);
        self.lemma_segments_single_spaced(n);
        text::lemma_join_single_spaced(texts);
        if t.len() > 0 {
            assert(m.segment_texts(n + 1) == texts.push(t));
            assert(texts.push(t).drop_last() =~= texts);
        }
    }

    /// A final only adds to the committed text: what its partial showed, the
    /// first letter capitalized.
    pub proof fn final_adds_to_the_committed_text(self, text: Seq<char>)
        requires
            self.wf(),
        ensures
            self.after_final(text).committed_text() == Self::appended(
                self.committed_text(),
                injector::capitalized(self.after_partial(text).visible_partial()),
            ),
    {
        self.final_adds_one_segment(text);
        if text::words(text).len() > 0 {
            self.lemma_one_more_segment(self.after_final(text));
        } else {
            let p = self.after_partial(text);
            assert(p.partial.len() == 0);
            assert(p.visible_partial().len() == 0);
        }
    }

    /// So does the final of an utterance without partials: all its words.
    pub proof fn batch_final_adds_to_the_committed_text(self, text: Seq<char>)
        requires
            self.wf(),
        ensures
            self.after_batch_final(text).committed_text() == Self::appended(
                self.committed_text(),
                injector::capitalized(text::join(text::words(text))),
            ),
    {
        self.batch_final_adds_one_segment(text);
        if text::words(text).len() > 0 {
            self.lemma_one_more_segment(self.after_batch_final(text));
        }
    }

    /// A final with more words than any partial of its utterance retires the
    /// pending erasures.
    pub proof fn grown_final_retires_erasures(self, text: Seq<char>)
        requires
            text::words(text).len() > self.longest,
        ensures
            self.after_final(text).pending.len() == 0,
    {
    }

    /// Any other final keeps them restorable, in the same order: it makes no
    /// difference whether a word is restored before the final or after it.
    pub proof fn undo_commutes_with_a_final(self, text: Seq<char>)
        requires
            text::words(text).len() <= self.longest,
            self.pending.len() > 0,
            self.pending.last() matches Pending::Partial(i) ==> i < text::words(text).len(),
        ensures
            self.after_final(text).pending.len() > 0,
            self.after_final(text).after_undo() == self.after_undo().after_final(text),
    {
        let m = self.after_final(text);
        let base = self.committed.len() as int;
        let n = text::words(text).len() as int;
        assert(m.pending.drop_last() =~= Self::carried(self.pending.drop_last(), base, n));
        assert(m.committed =~= self.after_undo().after_final(text).committed);
    }

    /// An erased word that the final no longer has is dropped: there is
    /// nothing left to restore.
    pub proof fn final_drops_a_dangling_erasure(self, text: Seq<char>)
        requires
            text::words(text).len() <= self.longest,
            self.pending.len() > 0,
            self.pending.last() matches Pending::Partial(i) && i >= text::words(text).len(),
        ensures
            self.after_final(text) == self.after_undo().after_final(text),
    {
        assert(self.after_final(text).committed =~= self.after_undo().after_final(text).committed);
    }

    /// A final of an utterance without partials retires the pending erasures,
    /// leaves the text of the earlier segments alone and adds all its words
    /// as one segment, or none where it has no words.
    pub proof fn batch_final_adds_one_segment(self, text: Seq<char>)
        requires
            self.wf(),
        ensures
            self.after_batch_final(text).pending.len() == 0,
            self.after_batch_final(text).visible_words() == self.slot_words(
                0,
                self.committed.len() as int,
            ) + text::words(text),
            self.after_batch_final(text).segment_texts(self.starts.len() as int)
                == self.segment_texts(self.starts.len() as int),
            text::words(text).len() == 0 ==> self.after_batch_final(text).starts == self.starts
                && self.after_batch_final(text).committed_text() == self.committed_text(),
            text::words(text).len() > 0 ==> self.after_batch_final(text).starts.len()
                == self.starts.len() + 1 && self.after_batch_final(text).segment_text(
                self.starts.len() as int,
            ) == injector::capitalized(text::join(text::words(text))),
    {
        let m = self.after_batch_final(text);
        let words = text::words(text);
        let base = self.committed.len() as int;
        let n = words.len() as int;
        assert forall|i: int| 0 <= i < base implies (#[trigger] m.shows(i) <==> self.shows(i)) && (
        self.shows(i) ==> m.committed[i] == self.committed[i]) by {}
        self.lemma_earlier_segments(m);
        m.lemma_slot_words_concat(0, base, base + n);
        m.lemma_same_slot_words(self, 0, base);
        let p = Model { partial: words, ..Self::fresh() };
        assert forall|i: int| !#[trigger] p.excludes(i) by {}
        p.lemma_committed_partial(m, base, n);
        p.lemma_all_partial_words(n);
        assert(words.take(n) =~= words);
        assert(m.visible_words() =~= self.slot_words(0, base) + words);
    }

    /// The words of the visible partial are the visible words of the partial:
    /// no word is lost, split or joined by rendering it.
    pub proof fn visible_partial_keeps_the_words(self)
        requires
            self.wf(),
        ensures
            text::words(self.visible_partial()) == self.partial_words(self.partial.len() as int),
    {
        self.lemma_partial_words_are_words(self.partial.len() as int);
        text::lemma_words_of_join(self.partial_words(self.partial.len() as int));
    }

    /// The visible words of the partial are words.
    proof fn lemma_partial_words_are_words(self, n: int)
        requires
            self.words_wf(),
            n <= self.partial.len(),
        ensures
            forall|i: int|
                0 <= i < self.partial_words(n).len() ==> text::is_word(
                    #[trigger] self.partial_words(n)[i],
                ),
        decreases n,
    {
        if 0 < n {
            self.lemma_partial_words_are_words(n - 1);
            let fewer = self.partial_words(n - 1);
            assert forall|i: int| 0 <= i < self.partial_words(n).len() implies text::is_word(
                #[trigger] self.partial_words(n)[i],
            ) by {
                if i < fewer.len() {
                    assert(text::is_word(fewer[i]));
                } else {
                    assert(text::is_word(self.partial[n - 1]));
                }
            }
        }
    }

    /// The visible partial does not end in white space.
    pub proof fn visible_partial_ends_in_a_word(self)
        requires
            self.wf(),
        ensures
            text::trim_end(self.visible_partial()) == self.visible_partial(),
    {
        let ws = self.partial_words(self.partial.len() as int);
        self.lemma_partial_words_are_words(self.partial.len() as int);
        if ws.len() > 0 {
            let w = ws.last();
            assert(text::is_word(ws[ws.len() - 1]));
            let joined = text::join(ws);
            assert(joined.last() == w.last());
        }
    }

    /// Without a visible partial the HUD shows the committed text, and that
    /// is also what the target buffer should hold.
    pub proof fn display_is_the_target_between_utterances(self, stable: Seq<char>)
        requires
            self.visible_partial().len() == 0,
        ensures
            self.display() == self.committed_text(),
            self.buffer_target(stable) == self.committed_text(),
    {
    }
}

/// The words of some texts, one text after the other.
pub open spec fn all_words(texts: Seq<Seq<char>>) -> Seq<Seq<char>>
    decreases texts.len(),
{
    if texts.len() == 0 {
        Seq::empty()
    } else {
        all_words(texts.drop_last()) + text::words(texts.last())
    }
}

/// Some words, the first of them capitalized.
pub open spec fn cased(ws: Seq<Seq<char>>) -> Seq<Seq<char>> {
    if ws.len() == 0 {
        ws
    } else {
        seq![injector::capitalized(ws[0])] + ws.skip(1)
    }
}

/// Joining texts keeps their words.
proof fn lemma_words_of_texts(texts: Seq<Seq<char>>)
    ensures
        text::words(text::join(texts)) == all_words(texts),
    decreases texts.len(),
{
    if texts.len() == 1 {
        assert(all_words(texts.drop_last()) =~= Seq::<Seq<char>>::empty());
        assert(texts.last() == texts[0]);
        assert(all_words(texts) =~= text::words(texts[0]));
    } else if texts.len() > 1 {
        lemma_words_of_texts(texts.drop_last());
        text::lemma_words_concat(text::join(texts.drop_last()), texts.last());
    }
}

/// A word is still a word when it is capitalized.
proof fn lemma_capitalized_word(w: Seq<char>)
    requires
        text::is_word(w),
    ensures
        text::is_word(injector::capitalized(w)),
{
    let c = injector::capitalized(w);
    let head = text::upper(w[0]);
    text::lemma_upper(w[0]);
    assert(!text::white_space(w[0]));
    assert forall|i: int| 0 <= i < c.len() implies !text::white_space(#[trigger] c[i]) by {
        if i < head.len() {
            assert(c[i] == head[i]);
        } else {
            assert(c[i] == w[i - head.len() + 1]);
        }
    }
}

/// Words that are joined make a single-spaced text, and nothing only where
/// there is none.
proof fn lemma_joined_words(ws: Seq<Seq<char>>)
    requires
        forall|i: int| 0 <= i < ws.len() ==> text::is_word(#[trigger] ws[i]),
    ensures
        text::single_spaced(text::join(ws)),
        text::join(ws).len() == 0 <==> ws.len() == 0,
{
    text::lemma_words_of_join(ws);
    if ws.len() > 0 {
        assert(text::is_word(ws[0]));
        lemma_join_head(ws);
    }
}

/// The first character of joined words is that of the first word.
proof fn lemma_join_head(ws: Seq<Seq<char>>)
    requires
        ws.len() > 0,
        ws[0].len() > 0,
    ensures
        text::join(ws).len() > 0,
        injector::capitalized(text::join(ws)) == text::join(cased(ws)),
        text::join(ws)[0] == ws[0][0],
    decreases ws.len(),
{
    let c = cased(ws);
    if ws.len() == 1 {
        assert(c.len() == 1);
        assert(c[0] == injector::capitalized(ws[0]));
    } else {
        let init = ws.drop_last();
        lemma_join_head(init);
        assert(init[0] == ws[0]);
        assert(c.drop_last() =~= cased(init));
        assert(c.last() == ws.last());
        let j = text::join(init);
        assert(injector::capitalized(text::join(ws)) =~= injector::capitalized(j).push(' ')
            + ws.last());
    }
}

/// What is shown.
impl Model {
    /// Whether slot `i` is the first visible one of its segment.
    pub open spec fn leads(self, i: int) -> bool {
        self.shows(i) && forall|k: int, j: int|
            #![trigger self.segment_end(k), self.shows(j)]
            0 <= k < self.starts.len() && self.starts[k] <= j < i && i < self.segment_end(k)
                ==> !self.shows(j)
    }

    /// The word of slot `i` as it is shown: capitalized where it leads its
    /// segment.
    pub open spec fn shown_word(self, i: int) -> Seq<char> {
        if self.leads(i) {
            injector::capitalized(self.committed[i]->0)
        } else {
            self.committed[i]->0
        }
    }

    /// The words that are shown of the slots from `a` to `b`.
    pub open spec fn shown_slots(self, a: int, b: int) -> Seq<Seq<char>>
        decreases b - a,
    {
        if b <= a {
            Seq::empty()
        } else if self.shows(b - 1) {
            self.shown_slots(a, b - 1).push(self.shown_word(b - 1))
        } else {
            self.shown_slots(a, b - 1)
        }
    }

    /// All words that are shown.
    pub open spec fn shown_words(self) -> Seq<Seq<char>> {
        self.shown_slots(0, self.committed.len() as int) + self.partial_words(
            self.partial.len() as int,
        )
    }

    /// A segment ends before a later one starts.
    proof fn lemma_segments_in_order(self, p: int, q: int)
        requires
            self.segments_wf(),
            0 <= p < q < self.starts.len(),
        ensures
            self.segment_end(p) <= self.starts[q],
        decreases q - p,
    {
        if p + 1 < q {
            self.lemma_segments_in_order(p, q - 1);
            assert(self.starts[q - 1] < self.segment_end(q - 1));
        }
    }

    /// A segment shows its visible words, the first of them capitalized.
    proof fn lemma_shown_segment(self, k: int, b: int)
        requires
            self.segments_wf(),
            0 <= k < self.starts.len(),
            self.starts[k] <= b <= self.segment_end(k),
        ensures
            self.shown_slots(self.starts[k], b) == cased(self.slot_words(self.starts[k], b)),
            self.slot_words(self.starts[k], b).len() == 0 <==> forall|j: int|
                self.starts[k] <= j < b ==> !#[trigger] self.shows(j),
        decreases b - self.starts[k],
    {
        let a = self.starts[k];
        if a < b {
            let i = b - 1;
            self.lemma_shown_segment(k, i);
            let before = self.slot_words(a, i);
            if self.shows(i) {
                let w = self.committed[i]->0;
                assert(self.leads(i) <==> before.len() == 0) by {
                    if before.len() == 0 {
                        assert forall|q: int, j: int|
                            #![trigger self.segment_end(q), self.shows(j)]
                            0 <= q < self.starts.len() && self.starts[q] <= j < i && i
                                < self.segment_end(q) implies !self.shows(j) by {
                            if q < k {
                                self.lemma_segments_in_order(q, k);
                            } else if k < q {
                                self.lemma_segments_in_order(k, q);
                            }
                        }
                    } else {
                        let j = choose|j: int| a <= j < i && #[trigger] self.shows(j);
                        assert(self.segment_end(k) > i);
                        assert(self.shows(j));
                    }
                }
                if before.len() == 0 {
                    assert(self.slot_words(a, b) =~= seq![w]);
                    assert(cased(seq![w]) =~= seq![injector::capitalized(w)]);
                    assert(self.shown_slots(a, b) =~= seq![injector::capitalized(w)]);
                } else {
                    assert(cased(before.push(w)) =~= cased(before).push(w));
                }
            }
        }
    }

    /// The shown words of adjacent slots are those of the first part and then
    /// those of the second.
    proof fn lemma_shown_slots_concat(self, a: int, b: int, c: int)
        requires
            a <= b <= c,
        ensures
            self.shown_slots(a, c) == self.shown_slots(a, b) + self.shown_slots(b, c),
        decreases c - b,
    {
        if b < c {
            self.lemma_shown_slots_concat(a, b, c - 1);
        }
        assert(self.shown_slots(a, c) =~= self.shown_slots(a, b) + self.shown_slots(b, c));
    }

    /// The visible words of some slots are words, and still are when
    /// capitalized.
    proof fn lemma_slot_words_are_words(self, a: int, b: int)
        requires
            self.words_wf(),
        ensures
            forall|i: int|
                0 <= i < self.slot_words(a, b).len() ==> text::is_word(
                    #[trigger] self.slot_words(a, b)[i],
                ) && text::is_word(injector::capitalized(self.slot_words(a, b)[i])),
        decreases b - a,
    {
        if a < b {
            self.lemma_slot_words_are_words(a, b - 1);
            let fewer = self.slot_words(a, b - 1);
            assert forall|i: int| 0 <= i < self.slot_words(a, b).len() implies text::is_word(
                #[trigger] self.slot_words(a, b)[i],
            ) && text::is_word(injector::capitalized(self.slot_words(a, b)[i])) by {
                if i < fewer.len() {
                    assert(text::is_word(fewer[i]));
                } else {
                    assert(self.committed[b - 1] is Some);
                    lemma_capitalized_word(self.committed[b - 1]->0);
                }
            }
        }
    }

    /// The words of a segment's text are the words that are shown of it.
    proof fn lemma_words_of_segment(self, k: int)
        requires
            self.wf(),
            0 <= k < self.starts.len(),
        ensures
            text::words(self.segment_text(k)) == self.shown_slots(
                self.starts[k],
                self.segment_end(k),
            ),
            text::single_spaced(self.segment_text(k)),
    {
        let a = self.starts[k];
        let b = self.segment_end(k);
        let ws = self.slot_words(a, b);
        self.lemma_shown_segment(k, b);
        self.lemma_slot_words_are_words(a, b);
        if ws.len() == 0 {
            assert(text::join(ws) =~= Seq::<char>::empty());
            assert(text::words(Seq::<char>::empty()) =~= Seq::<Seq<char>>::empty());
        } else {
            assert(text::is_word(ws[0]));
            lemma_join_head(ws);
            let c = cased(ws);
            assert forall|i: int| 0 <= i < c.len() implies text::is_word(#[trigger] c[i]) by {
                if i > 0 {
                    assert(c[i] == ws[i]);
                } else {
                    assert(c[0] == injector::capitalized(ws[0]));
                }
            }
            text::lemma_words_of_join(c);
        }
    }

    /// The words of the first `n` segments' texts.
    proof fn lemma_words_of_segments(self, n: int)
        requires
            self.wf(),
            0 < n <= self.starts.len(),
        ensures
            all_words(self.segment_texts(n)) == self.shown_slots(0, self.segment_end(n - 1)),
        decreases n,
    {
        let k = n - 1;
        let t = self.segment_text(k);
        self.lemma_words_of_segment(k);
        let earlier = self.segment_texts(k);
        if n > 1 {
            self.lemma_words_of_segments(k);
            self.lemma_shown_slots_concat(0, self.starts[k], self.segment_end(k));
            assert(self.segment_end(k - 1) == self.starts[k]);
        } else {
            assert(all_words(earlier) =~= Seq::<Seq<char>>::empty());
            assert(self.starts[0] == 0);
        }
        if t.len() == 0 {
            assert(text::words(t) =~= Seq::<Seq<char>>::empty());
            assert(all_words(earlier) + text::words(t) =~= all_words(earlier));
        } else {
            assert(self.segment_texts(n).drop_last() =~= earlier);
        }
        assert(all_words(self.segment_texts(n)) =~= all_words(earlier) + text::words(t));
        assert(all_words(self.segment_texts(n)) =~= self.shown_slots(0, self.segment_end(k)));
    }

    /// The texts of the first `n` segments are single-spaced.
    proof fn lemma_segments_single_spaced(self, n: int)
        requires
            self.wf(),
            n <= self.starts.len(),
        ensures
            forall|i: int|
                0 <= i < self.segment_texts(n).len() ==> text::single_spaced(
                    #[trigger] self.segment_texts(n)[i],
                ) && self.segment_texts(n)[i].len() > 0,
        decreases n,
    {
        if 0 < n {
            let earlier = self.segment_texts(n - 1);
            self.lemma_segments_single_spaced(n - 1);
            self.lemma_words_of_segment(n - 1);
            assert forall|i: int| 0 <= i < self.segment_texts(n).len() implies text::single_spaced(
                #[trigger] self.segment_texts(n)[i],
            ) && self.segment_texts(n)[i].len() > 0 by {
                if i < earlier.len() {
                    assert(text::single_spaced(earlier[i]));
                }
            }
        }
    }

    /// What the HUD shows, the committed text and the visible partial each
    /// are words with one space between them: no white space at the ends, none
    /// doubled.
    pub proof fn display_is_single_spaced(self)
        requires
            self.wf(),
        ensures
            text::single_spaced(self.display()),
            text::single_spaced(self.committed_text()),
            text::single_spaced(self.visible_partial()),
    {
        let n = self.starts.len() as int;
        self.lemma_segments_single_spaced(n);
        text::lemma_join_single_spaced(self.segment_texts(n));
        let ws = self.partial_words(self.partial.len() as int);
        self.lemma_partial_words_are_words(self.partial.len() as int);
        lemma_joined_words(ws);
        if self.visible_partial().len() > 0 && self.committed_text().len() > 0 {
            text::lemma_single_spaced(self.committed_text(), self.visible_partial());
        }
    }

    /// What the HUD shows is exactly the visible words in their order, the
    /// first of each segment capitalized and those of the partial raw: no word
    /// is lost, repeated, split or joined by rendering them.
    pub proof fn display_shows_the_visible_words(self)
        requires
            self.wf(),
        ensures
            text::words(self.committed_text()) == self.shown_slots(
                0,
                self.committed.len() as int,
            ),
            text::words(self.display()) == self.shown_words(),
    {
        let texts = self.segment_texts(self.starts.len() as int);
        lemma_words_of_texts(texts);
        if self.starts.len() > 0 {
            self.lemma_words_of_segments(self.starts.len() as int);
        } else {
            assert(self.committed.len() == 0);
            assert(all_words(texts) =~= Seq::<Seq<char>>::empty());
        }
        self.visible_partial_keeps_the_words();
        let shown = self.shown_slots(0, self.committed.len() as int);
        let partial = self.partial_words(self.partial.len() as int);
        let nothing = Seq::<char>::empty();
        assert(text::words(nothing) =~= Seq::<Seq<char>>::empty());
        if self.visible_partial().len() == 0 {
            assert(self.visible_partial() =~= nothing);
            assert(shown + partial =~= shown);
        } else if self.committed_text().len() == 0 {
            assert(self.committed_text() =~= nothing);
            assert(shown + partial =~= partial);
        } else {
            text::lemma_words_concat(self.committed_text(), self.visible_partial());
        }
    }

    /// There are as many shown words as visible ones.
    proof fn lemma_shown_len(self, a: int, b: int)
        ensures
            self.shown_slots(a, b).len() == self.slot_words(a, b).len(),
        decreases b - a,
    {
        if a < b {
            self.lemma_shown_len(a, b - 1);
        }
    }

    /// Two models that show the same slots up to `b` show the same words of
    /// them.
    proof fn lemma_same_shown_slots(self, other: Model, b: int)
        requires
            self.starts == other.starts,
            self.committed == other.committed,
            b <= self.committed.len(),
            forall|i: int| 0 <= i < b ==> (#[trigger] self.shows(i) <==> other.shows(i)),
            self.segments_wf(),
        ensures
            self.shown_slots(0, b) == other.shown_slots(0, b),
        decreases b,
    {
        if 0 < b {
            self.lemma_same_shown_slots(other, b - 1);
            let i = b - 1;
            assert(self.shows(i) <==> other.shows(i));
            assert(self.leads(i) <==> other.leads(i)) by {
                assert forall|k: int, j: int|
                    #![trigger self.segment_end(k), self.shows(j)]
                    #![trigger other.segment_end(k), other.shows(j)]
                    0 <= k < self.starts.len() && self.starts[k] <= j < i implies (self.shows(j)
                    <==> other.shows(j)) && self.segment_end(k) == other.segment_end(k) by {
                    assert(0 <= self.starts[k]);
                }
            }
        }
    }

    /// An erase takes the last word off what the HUD shows, and changes no
    /// other word of it.
    pub proof fn erase_removes_the_last_shown_word(self)
        requires
            self.wf(),
            self.erasable() is Some,
        ensures
            text::words(self.display()).len() > 0,
            text::words(self.after_erase().display()) == text::words(self.display()).drop_last(),
    {
        let m = self.after_erase();
        let slots = self.committed.len() as int;
        let n = self.partial.len() as int;
        self.erase_keeps_wf();
        self.display_shows_the_visible_words();
        m.display_shows_the_visible_words();
        self.erase_removes_the_last_word();
        self.lemma_shown_len(0, slots);
        m.lemma_shown_len(0, slots);
        self.lemma_last_position(n);
        self.lemma_last_slot(slots);
        match self.last_position(n) {
            Some(p) => {
                self.lemma_push_pending(Pending::Partial(p));
                assert forall|i: int| #[trigger] self.shows(i) <==> m.shows(i) by {
                    assert(m.hides(i) <==> self.hides(i));
                }
                self.lemma_same_shown_slots(m, slots);
                self.lemma_partial_words_end(p + 1, n);
                assert forall|i: int| p <= i < n implies #[trigger] m.excludes(i) by {
                    if p < i {
                        assert(self.excludes(i));
                    }
                }
                m.lemma_partial_words_end(p, n);
                self.lemma_same_partial_words(m, p);
                assert(m.shown_words() =~= self.shown_words().drop_last());
            },
            None => {
                let k = self.last_slot(slots)->0;
                self.lemma_push_pending(Pending::Committed(k));
                self.lemma_partial_words_end(0, n);
                assert forall|i: int| 0 <= i < n implies #[trigger] m.excludes(i) by {
                    assert(self.excludes(i));
                }
                m.lemma_partial_words_end(0, n);
                assert forall|i: int| 0 <= i < k implies (#[trigger] self.shows(i) <==> m.shows(
                    i,
                )) by {
                    assert(m.hides(i) <==> self.hides(i));
                }
                self.lemma_same_shown_slots(m, k);
                self.lemma_shown_slots_concat(0, k + 1, slots);
                m.lemma_shown_slots_concat(0, k, slots);
                self.lemma_shown_len(k + 1, slots);
                self.lemma_no_slot_words(k + 1, slots);
                assert forall|i: int| k <= i < slots implies !#[trigger] m.shows(i) by {
                    if k < i {
                        assert(!self.shows(i));
                        assert(m.hides(i) <==> self.hides(i));
                    }
                }
                m.lemma_shown_len(k, slots);
                m.lemma_no_slot_words(k, slots);
                assert(m.shown_words() =~= self.shown_words().drop_last());
            },
        }
    }

    /// An erase succeeds exactly when the HUD shows anything, and then leaves
    /// the words that it shows but the last. That word goes from the live
    /// partial while any of it is visible, which leaves the committed text
    /// alone, and else from the committed text. An erase that fails changes
    /// nothing.
    pub proof fn erase_shortens_the_display(self)
        requires
            self.wf(),
        ensures
            self.erasable() is Some <==> self.display().len() > 0,
            self.display().len() > 0 ==> self.after_erase().display() == text::join(
                text::words(self.display()).drop_last(),
            ),
            self.visible_partial().len() > 0 ==> self.after_erase().committed_text()
                == self.committed_text() && self.after_erase().visible_partial() == text::join(
                text::words(self.visible_partial()).drop_last(),
            ),
            self.visible_partial().len() == 0 && self.display().len() > 0
                ==> self.after_erase().visible_partial().len() == 0
                && self.after_erase().committed_text() == text::join(
                text::words(self.committed_text()).drop_last(),
            ),
            self.display().len() == 0 ==> self.after_erase() == self,
    {
        let m = self.after_erase();
        let slots = self.committed.len() as int;
        let n = self.partial.len() as int;
        self.erase_keeps_wf();
        self.display_is_single_spaced();
        m.display_is_single_spaced();
        self.display_shows_the_visible_words();
        self.erase_removes_the_last_word();
        self.lemma_shown_len(0, slots);
        assert(self.shown_words().len() == self.visible_words().len());
        assert(self.erasable() is Some <==> self.display().len() > 0) by {
            let nothing = Seq::<char>::empty();
            assert(text::words(nothing) =~= Seq::<Seq<char>>::empty());
            if self.display().len() == 0 {
                assert(self.display() =~= nothing);
            }
        }
        if self.erasable() is Some {
            self.erase_removes_the_last_shown_word();
            self.lemma_last_position(n);
            self.lemma_last_slot(slots);
            self.lemma_partial_words_are_words(n);
            lemma_joined_words(self.partial_words(n));
            self.visible_partial_keeps_the_words();
            match self.last_position(n) {
                Some(p) => {
                    self.lemma_push_pending(Pending::Partial(p));
                    assert forall|i: int| #[trigger] m.shows(i) <==> self.shows(i) by {
                        assert(m.hides(i) <==> self.hides(i));
                    }
                    m.lemma_same_committed_text(self);
                    self.lemma_partial_words_end(p + 1, n);
                    assert forall|i: int| p <= i < n implies #[trigger] m.excludes(i) by {
                        if p < i {
                            assert(self.excludes(i));
                        }
                    }
                    m.lemma_partial_words_end(p, n);
                    self.lemma_same_partial_words(m, p);
                    assert(m.partial_words(n) =~= self.partial_words(n).drop_last());
                },
                None => {
                    let k = self.last_slot(slots)->0;
                    self.lemma_push_pending(Pending::Committed(k));
                    self.lemma_partial_words_end(0, n);
                    assert forall|i: int| 0 <= i < n implies #[trigger] m.excludes(i) by {
                        assert(self.excludes(i));
                    }
                    m.lemma_partial_words_end(0, n);
                },
            }
        }
    }
}

/// What each operation means for what is seen.
impl Model {
    /// Before any text nothing is shown, nothing can be erased and nothing
    /// restored.
    pub proof fn fresh_transcript_shows_nothing()
        ensures
            Self::fresh().wf(),
            Self::fresh().display() == Seq::<char>::empty(),
            Self::fresh().committed_text() == Seq::<char>::empty(),
            Self::fresh().visible_partial() == Seq::<char>::empty(),
            Self::fresh().erasable() is None,
            Self::fresh().pending.len() == 0,
            !Self::fresh().active,
    {
        let m = Self::fresh();
        assert forall|i: int| !#[trigger] m.hides(i) by {}
        assert forall|i: int| !#[trigger] m.excludes(i) by {}
    }

    /// The visible words of the partial are those whose positions are not
    /// among the erased ones, in order.
    pub proof fn visible_partial_leaves_out_the_erased_positions(self, n: int)
        requires
            0 <= n <= self.partial.len(),
        ensures
            self.partial_words(n) == Seq::new(n as nat, |i: int| i).filter(
                |i: int| !self.pending.contains(Pending::Partial(i)),
            ).map_values(|i: int| self.partial[i]),
        decreases n,
    {
        let keep = |i: int| !self.pending.contains(Pending::Partial(i));
        let word = |i: int| self.partial[i];
        let all = Seq::new(n as nat, |i: int| i);
        reveal(Seq::filter);
        if n > 0 {
            self.visible_partial_leaves_out_the_erased_positions(n - 1);
            let fewer = Seq::new((n - 1) as nat, |i: int| i);
            assert(all.drop_last() =~= fewer);
            assert(all.last() == n - 1);
            if keep(n - 1) {
                assert(all.filter(keep) =~= fewer.filter(keep).push(n - 1));
                assert(all.filter(keep).map_values(word) =~= fewer.filter(keep).map_values(
                    word,
                ).push(self.partial[n - 1]));
            } else {
                assert(all.filter(keep) =~= fewer.filter(keep));
            }
        } else {
            assert(all.filter(keep).map_values(word) =~= self.partial_words(n));
        }
    }

    /// The visible committed words are those in slots that are no gaps and not
    /// among the erased ones, in order.
    pub proof fn visible_slots_leave_out_the_erased_ones(self, n: int)
        requires
            0 <= n <= self.committed.len(),
        ensures
            self.slot_words(0, n) == Seq::new(n as nat, |i: int| i).filter(
                |i: int|
                    self.committed[i] is Some && !self.pending.contains(Pending::Committed(i)),
            ).map_values(|i: int| self.committed[i]->0),
        decreases n,
    {
        let keep = |i: int|
            self.committed[i] is Some && !self.pending.contains(Pending::Committed(i));
        let word = |i: int| self.committed[i]->0;
        let all = Seq::new(n as nat, |i: int| i);
        reveal(Seq::filter);
        if n > 0 {
            self.visible_slots_leave_out_the_erased_ones(n - 1);
            let fewer = Seq::new((n - 1) as nat, |i: int| i);
            assert(all.drop_last() =~= fewer);
            assert(all.last() == n - 1);
            if keep(n - 1) {
                assert(all.filter(keep) =~= fewer.filter(keep).push(n - 1));
                assert(all.filter(keep).map_values(word) =~= fewer.filter(keep).map_values(
                    word,
                ).push(self.committed[n - 1]->0));
            } else {
                assert(all.filter(keep) =~= fewer.filter(keep));
            }
        } else {
            assert(all.filter(keep).map_values(word) =~= self.slot_words(0, n));
        }
    }

    /// A partial replaces the words of the utterance by its own, and leaves
    /// the committed text alone. The most words of a partial of the utterance
    /// are remembered.
    pub proof fn partial_replaces_the_one_before(self, text: Seq<char>)
        requires
            self.wf(),
        ensures
            ({
                let m = self.after_partial(text);
                let n = text::words(text).len();
                &&& m.partial == text::words(text)
                &&& m.active
                &&& m.committed_text() == self.committed_text()
                &&& self.active ==> m.pending == self.pending
                &&& !self.active ==> m.pending.len() == 0
                &&& self.active ==> m.longest == if n > self.longest {
                    n
                } else {
                    self.longest
                }
                &&& !self.active ==> m.longest == n
                &&& self.pending.len() == 0 ==> m.visible_partial() == text::join(
                    text::words(text),
                )
            }),
    {
        let m = self.after_partial(text);
        if self.active {
            self.partial_keeps_erasures_within_an_utterance(text);
        } else {
            self.partial_retires_erasures_of_the_utterance_before(text);
        }
        if self.pending.len() == 0 {
            assert(m.pending.len() == 0);
            m.partial_without_erasures_is_shown_whole();
        }
    }

    /// Where nothing is erased, a final adds all its words to the committed
    /// text, behind a space where there is any, the first letter capitalized,
    /// and ends the utterance: the HUD then shows the committed text.
    pub proof fn final_commits_all_its_words(self, text: Seq<char>)
        requires
            self.wf(),
        ensures
            ({
                let words = text::words(text);
                let head = injector::capitalized(text::join(words));
                let committed = self.committed_text();
                let after = if words.len() == 0 {
                    committed
                } else if committed.len() == 0 {
                    head
                } else {
                    committed + seq![' '] + head
                };
                let streamed = self.after_final(text);
                let batch = self.after_batch_final(text);
                &&& self.pending.len() == 0 ==> streamed.committed_text() == after
                &&& batch.committed_text() == after
                &&& streamed.display() == streamed.committed_text()
                &&& batch.display() == batch.committed_text()
                &&& !streamed.active && !batch.active
                &&& streamed.partial.len() == 0 && batch.partial.len() == 0
                &&& streamed.longest == 0 && batch.longest == 0
                &&& batch.pending.len() == 0
                &&& self.pending.len() == 0 ==> streamed.pending.len() == 0
            }),
    {
        let words = text::words(text);
        let head = injector::capitalized(text::join(words));
        let committed = self.committed_text();
        self.final_adds_to_the_committed_text(text);
        self.batch_final_adds_to_the_committed_text(text);
        text::lemma_words_are_words(text);
        lemma_joined_words(words);
        if words.len() > 0 {
            let joined = text::join(words);
            assert(joined.len() > 0);
            text::lemma_upper(joined[0]);
            assert(head.len() > 0);
        }
        assert(committed.push(' ') + head =~= committed + seq![' '] + head);
        if self.pending.len() == 0 {
            self.partial_replaces_the_one_before(text);
            Self::lemma_carried(self.pending, self.committed.len() as int, words.len() as int);
        }
    }

    /// What the buffer should hold: the committed text and, while any of the
    /// partial is visible, what of it is stable, behind a space where there is
    /// committed text and with its first letter capitalized.
    pub proof fn buffer_holds_the_committed_text_and_what_is_stable(self, stable: Seq<char>)
        ensures
            self.visible_partial().len() == 0 || stable.len() == 0 ==> self.buffer_target(stable)
                == self.committed_text(),
            self.visible_partial().len() > 0 && stable.len() > 0 && self.committed_text().len() == 0
                ==> self.buffer_target(stable) == injector::capitalized(stable),
            self.visible_partial().len() > 0 && stable.len() > 0 && self.committed_text().len() > 0
                ==> self.buffer_target(stable) == self.committed_text() + seq![' ']
                + injector::capitalized(stable),
    {
        let c = self.committed_text();
        let head = injector::capitalized(stable);
        assert(c.push(' ') + head =~= c + seq![' '] + head);
    }

    /// What the HUD shows is the committed text and the visible partial, with
    /// a space between them where there are both.
    pub proof fn display_is_committed_text_and_partial(self)
        ensures
            self.visible_partial().len() == 0 ==> self.display() == self.committed_text(),
            self.committed_text().len() == 0 ==> self.display() == self.visible_partial(),
            self.visible_partial().len() > 0 && self.committed_text().len() > 0 ==> self.display()
                == self.committed_text() + seq![' '] + self.visible_partial(),
    {
        let c = self.committed_text();
        let p = self.visible_partial();
        assert(c.push(' ') + p =~= c + seq![' '] + p);
        if c.len() == 0 && p.len() == 0 {
            assert(c =~= p);
        }
    }

    /// An undo takes back the latest erasure that can be, and only that: the
    /// words that are stored stay, and so do the other erasures. Without one
    /// nothing changes.
    pub proof fn undo_takes_back_the_latest_erasure(self)
        ensures
            self.pending.len() > 0 ==> self.after_undo().pending == self.pending.take(
                self.pending.len() - 1,
            ),
            self.pending.len() == 0 ==> self.after_undo() == self,
            self.after_undo().committed == self.committed,
            self.after_undo().starts == self.starts,
            self.after_undo().partial == self.partial,
            self.after_undo().active == self.active,
            self.after_undo().longest == self.longest,
    {
        if self.pending.len() > 0 {
            assert(self.pending.drop_last() =~= self.pending.take(self.pending.len() - 1));
        }
    }

    /// An erase changes nothing of what is stored: it adds one erasure that
    /// can be undone.
    pub proof fn erase_adds_one_erasure(self)
        requires
            self.wf(),
        ensures
            self.after_erase().committed == self.committed,
            self.after_erase().starts == self.starts,
            self.after_erase().partial == self.partial,
            self.after_erase().active == self.active,
            self.after_erase().longest == self.longest,
            self.display().len() > 0 ==> self.after_erase().pending.len() == self.pending.len() + 1
                && self.after_erase().pending.take(self.pending.len() as int) == self.pending,
            self.display().len() == 0 ==> self.after_erase().pending == self.pending,
    {
        self.erase_shortens_the_display();
        if self.display().len() > 0 {
            assert(self.after_erase().pending.take(self.pending.len() as int) =~= self.pending);
        }
    }
}

} // verus!
