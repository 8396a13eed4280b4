//! The filter engine: test modes, the filter configuration with its
//! rank-range invariant, and the computation of the active practice set.

use crate::corpus::{contains_str, contains_tag, pos_observed, FrequencyWord};
use crate::text::str_eq;
use vstd::prelude::*;

verus! {

/// How the drill walks the active set.
#[derive(Clone, Copy, PartialEq, Eq, Structural, Debug)]
pub enum TestMode {
    Sequential,
    Random,
    Bounded,
}

/// The order used inside the bounded rank window.
#[derive(Clone, Copy, PartialEq, Eq, Structural, Debug)]
pub enum BoundedOrder {
    Sequential,
    Random,
}

impl TestMode {
    /// The stable identifier of this mode, as the settings surface stores it.
    pub fn as_str(self) -> (r: &'static str)
        ensures
            self is Sequential ==> r@ == "sequential"@,
            self is Random ==> r@ == "random"@,
            self is Bounded ==> r@ == "bounded"@,
    {
        match self {
            TestMode::Sequential => "sequential",
            TestMode::Random => "random",
            TestMode::Bounded => "bounded",
        }
    }

    /// Decodes a stored mode identifier; an unknown string is reported as
    /// `None` rather than being mapped to a default.
    pub fn from_str(s: &str) -> (r: Option<TestMode>)
        ensures
            r == Some(TestMode::Sequential) <==> s@ == "sequential"@,
            r == Some(TestMode::Random) <==> s@ == "random"@,
            r == Some(TestMode::Bounded) <==> s@ == "bounded"@,
            r is None <==> (s@ != "sequential"@ && s@ != "random"@ && s@ != "bounded"@),
    {
        broadcast use vstd::string::group_string_axioms;

        proof {
            reveal_strlit("sequential");
            reveal_strlit("random");
            reveal_strlit("bounded");
            assert("sequential"@.len() == 10);
            assert("random"@.len() == 6);
            assert("bounded"@.len() == 7);
        }
        if str_eq(s, "sequential") {
            Some(TestMode::Sequential)
        } else if str_eq(s, "random") {
            Some(TestMode::Random)
        } else if str_eq(s, "bounded") {
            Some(TestMode::Bounded)
        } else {
            None
        }
    }
}

impl BoundedOrder {
    /// The stable identifier of this order, as the settings surface stores it.
    pub fn as_str(self) -> (r: &'static str)
        ensures
            self is Sequential ==> r@ == "bounded_seq"@,
            self is Random ==> r@ == "bounded_rand"@,
    {
        match self {
            BoundedOrder::Sequential => "bounded_seq",
            BoundedOrder::Random => "bounded_rand",
        }
    }

    /// Decodes a stored order identifier; an unknown string is reported as
    /// `None` rather than being mapped to a default.
    pub fn from_str(s: &str) -> (r: Option<BoundedOrder>)
        ensures
            r == Some(BoundedOrder::Sequential) <==> s@ == "bounded_seq"@,
            r == Some(BoundedOrder::Random) <==> s@ == "bounded_rand"@,
            r is None <==> (s@ != "bounded_seq"@ && s@ != "bounded_rand"@),
    {
        broadcast use vstd::string::group_string_axioms;

        proof {
            reveal_strlit("bounded_seq");
            reveal_strlit("bounded_rand");
            assert("bounded_seq"@.len() == 11);
            assert("bounded_rand"@.len() == 12);
        }
        if str_eq(s, "bounded_seq") {
            Some(BoundedOrder::Sequential)
        } else if str_eq(s, "bounded_rand") {
            Some(BoundedOrder::Random)
        } else {
            None
        }
    }
}

} // verus!

verus! {

/// Clamps a requested rank bound into `[1, max_available]`.
pub open spec fn clamp_rank(v: u32, max_available: u32) -> u32 {
    if v < 1 {
        1
    } else if v > max_available {
        max_available
    } else {
        v
    }
}

/// Configuration of the practice filters: part-of-speech selection, test
/// mode, rank window and in-window order.
///
/// An empty `active_pos` means "no part-of-speech filter". The rank window
/// only applies while `mode` is `Bounded`.
pub struct FilterConfig {
    pub active_pos: Vec<String>,
    pub mode: TestMode,
    pub rank_min: u32,
    pub rank_max: u32,
    pub bounded_order: BoundedOrder,
}

impl FilterConfig {
    /// The rank-range invariant: bounds start at 1 and never cross.
    pub open spec fn wf(self) -> bool {
        1 <= self.rank_min <= self.rank_max
    }

    /// The defaults a fresh practice session starts from.
    pub fn new() -> (r: FilterConfig)
        ensures
            r.wf(),
            r.active_pos@.len() == 0,
            r.mode is Random,
            r.rank_min == 1,
            r.rank_max == 250,
            r.bounded_order is Random,
    {
        FilterConfig {
            active_pos: Vec::new(),
            mode: TestMode::Random,
            rank_min: 1,
            rank_max: 250,
            bounded_order: BoundedOrder::Random,
        }
    }

    /// The upper rank bound actually used: a requested maximum below the
    /// minimum is normalized up to the minimum.
    pub open spec fn effective_rank_max(self) -> u32 {
        if self.rank_max >= self.rank_min {
            self.rank_max
        } else {
            self.rank_min
        }
    }

    /// Requests a rank window. The pair is normalized so that the bounds
    /// never cross: a maximum below the minimum is clamped up to it.
    pub fn set_ranks(&mut self, lo: u32, hi: u32)
        requires
            lo >= 1,
        ensures
            final(self).rank_min == lo,
            final(self).rank_max == (if hi >= lo {
                hi
            } else {
                lo
            }),
            final(self).wf(),
            final(self).active_pos == old(self).active_pos,
            final(self).mode == old(self).mode,
            final(self).bounded_order == old(self).bounded_order,
    {
        self.rank_min = lo;
        self.rank_max = if hi >= lo {
            hi
        } else {
            lo
        };
    }

    /// User edit of the lower rank bound: the value is clamped into
    /// `[1, max_available]`, and the upper bound is dragged up when the new
    /// lower bound crosses it.
    pub fn set_rank_min(&mut self, v: u32, max_available: u32)
        requires
            max_available >= 1,
        ensures
            final(self).rank_min == clamp_rank(v, max_available),
            final(self).rank_max == (if clamp_rank(v, max_available) > old(self).rank_max {
                clamp_rank(v, max_available)
            } else {
                old(self).rank_max
            }),
            final(self).wf(),
            final(self).active_pos == old(self).active_pos,
            final(self).mode == old(self).mode,
            final(self).bounded_order == old(self).bounded_order,
    {
        let mut v = v;
        if v < 1 {
            v = 1;
        }
        if v > max_available {
            v = max_available;
        }
        if v > self.rank_max {
            self.rank_max = v;
        }
        self.rank_min = v;
    }

    /// User edit of the upper rank bound: the value is clamped into
    /// `[1, max_available]`, then clamped up to the current lower bound so
    /// the window never crosses.
    pub fn set_rank_max(&mut self, v: u32, max_available: u32)
        requires
            max_available >= 1,
            old(self).wf(),
        ensures
            final(self).rank_max == (if clamp_rank(v, max_available) < old(self).rank_min {
                old(self).rank_min
            } else {
                clamp_rank(v, max_available)
            }),
            final(self).rank_min == old(self).rank_min,
            final(self).wf(),
            final(self).active_pos == old(self).active_pos,
            final(self).mode == old(self).mode,
            final(self).bounded_order == old(self).bounded_order,
    {
        let mut v = v;
        if v < 1 {
            v = 1;
        }
        if v > max_available {
            v = max_available;
        }
        if v < self.rank_min {
            v = self.rank_min;
        }
        self.rank_max = v;
    }
}

/// Whether the selected tags are exactly the tags observed in the corpus:
/// every selected tag occurs, and every occurring tag is selected. When this
/// holds, entries without a tag are kept, so that "all tags enabled" behaves
/// like "no filter".
pub open spec fn covers_all_pos(active: Seq<String>, corpus: Seq<FrequencyWord>) -> bool {
    (forall|i: int| 0 <= i < active.len() ==> pos_observed(corpus, #[trigger] active[i]@))
        && (forall|j: int|
        0 <= j < corpus.len() && (#[trigger] corpus[j].pos) is Some ==> contains_str(
            active,
            corpus[j].pos->Some_0@,
        ))
}

/// The part-of-speech pass: with no selection every entry is kept; otherwise
/// a tagged entry is kept when its tag is selected, and an untagged entry
/// only when the selection covers every observed tag.
pub open spec fn pos_pass(w: FrequencyWord, active: Seq<String>, corpus: Seq<FrequencyWord>) -> bool {
    active.len() == 0 || (match w.pos {
        Some(p) => contains_str(active, p@),
        None => covers_all_pos(active, corpus),
    })
}

/// The rank pass: only bounded mode restricts ranks, to the normalized
/// window `[rank_min, effective_rank_max]`.
pub open spec fn rank_pass(w: FrequencyWord, cfg: FilterConfig) -> bool {
    cfg.mode is Bounded ==> cfg.rank_min <= w.rank <= cfg.effective_rank_max()
}

/// Whether one corpus entry belongs to the active set under `cfg`. The whole
/// corpus is the context for the untagged-entry rule.
pub open spec fn keeps(w: FrequencyWord, cfg: FilterConfig, corpus: Seq<FrequencyWord>) -> bool {
    pos_pass(w, cfg.active_pos@, corpus) && rank_pass(w, cfg)
}

/// The entries of `s` that pass the filter, in order, with `ctx` as the
/// corpus context for the untagged-entry rule.
pub open spec fn filter_keep(
    s: Seq<FrequencyWord>,
    cfg: FilterConfig,
    ctx: Seq<FrequencyWord>,
) -> Seq<FrequencyWord>
    decreases s.len(),
{
    if s.len() == 0 {
        Seq::empty()
    } else {
        let rest = filter_keep(s.drop_last(), cfg, ctx);
        if keeps(s.last(), cfg, ctx) {
            rest.push(s.last())
        } else {
            rest
        }
    }
}

/// The active practice set of a corpus under a filter configuration:
/// the subsequence of entries passing the part-of-speech pass and, in
/// bounded mode, the rank pass, in corpus order.
pub open spec fn active_set_spec(corpus: Seq<FrequencyWord>, cfg: FilterConfig) -> Seq<
    FrequencyWord,
> {
    filter_keep(corpus, cfg, corpus)
}

/// Runtime test for [`pos_observed`]: whether some entry of the corpus
/// carries the tag `t`.
pub fn tag_observed(corpus: &Vec<FrequencyWord>, t: &str) -> (r: bool)
    ensures
        r == pos_observed(corpus@, t@),
{
    let mut i: usize = 0;
    while i < corpus.len()
        invariant
            i <= corpus@.len(),
            forall|j: int|
                0 <= j < i ==> !((#[trigger] corpus@[j].pos) is Some && corpus@[j].pos->Some_0@
                    == t@),
        decreases corpus@.len() - i,
    {
        match &corpus[i].pos {
            Some(p) => {
                if str_eq(p.as_str(), t) {
                    return true;
                }
            }
            None => {}
        }
        i = i + 1;
    }
    false
}

/// Runtime test for [`covers_all_pos`].
pub fn covers_all(active: &Vec<String>, corpus: &Vec<FrequencyWord>) -> (r: bool)
    ensures
        r == covers_all_pos(active@, corpus@),
{
    let mut i: usize = 0;
    while i < active.len()
        invariant
            i <= active@.len(),
            forall|j: int| 0 <= j < i ==> pos_observed(corpus@, #[trigger] active@[j]@),
        decreases active@.len() - i,
    {
        if !tag_observed(corpus, active[i].as_str()) {
            return false;
        }
        i = i + 1;
    }
    let mut j: usize = 0;
    while j < corpus.len()
        invariant
            j <= corpus@.len(),
            forall|i: int| 0 <= i < active@.len() ==> pos_observed(corpus@, #[trigger] active@[i]@),
            forall|k: int|
                0 <= k < j && (#[trigger] corpus@[k].pos) is Some ==> contains_str(
                    active@,
                    corpus@[k].pos->Some_0@,
                ),
        decreases corpus@.len() - j,
    {
        match &corpus[j].pos {
            Some(p) => {
                if !contains_tag(active, p.as_str()) {
                    return false;
                }
            }
            None => {}
        }
        j = j + 1;
    }
    true
}

/// Narrows the corpus to the active practice set: the part-of-speech pass
/// first, then, in bounded mode only, the normalized rank window. The result
/// keeps corpus order and is exactly [`active_set_spec`].
pub fn compute_active_set(corpus: &Vec<FrequencyWord>, cfg: &FilterConfig) -> (r: Vec<
    FrequencyWord,
>)
    ensures
        r@ == active_set_spec(corpus@, *cfg),
{
    let covers = covers_all(&cfg.active_pos, corpus);
    let mut r: Vec<FrequencyWord> = Vec::new();
    let mut i: usize = 0;
    while i < corpus.len()
        invariant
            i <= corpus@.len(),
            covers == covers_all_pos(cfg.active_pos@, corpus@),
            r@ == filter_keep(corpus@.subrange(0, i as int), *cfg, corpus@),
        decreases corpus@.len() - i,
    {
        let w = &corpus[i];
        let pos_ok: bool = if cfg.active_pos.len() == 0 {
            true
        } else {
            match &w.pos {
                Some(p) => contains_tag(&cfg.active_pos, p.as_str()),
                None => covers,
            }
        };
        let rank_ok: bool = if cfg.mode == TestMode::Bounded {
            let hi = if cfg.rank_max >= cfg.rank_min {
                cfg.rank_max
            } else {
                cfg.rank_min
            };
            cfg.rank_min <= w.rank && w.rank <= hi
        } else {
            true
        };
        if pos_ok && rank_ok {
            r.push(w.clone());
        }
        proof {
            let sub = corpus@.subrange(0, i as int);
            let sub1 = corpus@.subrange(0, i + 1);
            assert(sub1.drop_last() =~= sub);
            assert(sub1.last() == corpus@[i as int]);
            assert((pos_ok && rank_ok) == keeps(corpus@[i as int], *cfg, corpus@));
        }
        i = i + 1;
    }
    proof {
        assert(corpus@.subrange(0, corpus@.len() as int) =~= corpus@);
    }
    r
}

/// When every entry passes the filter, the active set is the corpus
/// itself, unchanged and in order.
pub proof fn lemma_all_kept_is_corpus(corpus: Seq<FrequencyWord>, cfg: FilterConfig)
    requires
        forall|i: int| 0 <= i < corpus.len() ==> keeps(#[trigger] corpus[i], cfg, corpus),
    ensures
        active_set_spec(corpus, cfg) == corpus,
{
    lemma_filter_keep_all(corpus, cfg, corpus);
}

proof fn lemma_filter_keep_all(s: Seq<FrequencyWord>, cfg: FilterConfig, ctx: Seq<FrequencyWord>)
    requires
        forall|i: int| 0 <= i < s.len() ==> keeps(#[trigger] s[i], cfg, ctx),
    ensures
        filter_keep(s, cfg, ctx) == s,
    decreases s.len(),
{
    if s.len() == 0 {
        assert(filter_keep(s, cfg, ctx) =~= s);
    } else {
        assert(forall|i: int| 0 <= i < s.len() - 1 ==> #[trigger] s.drop_last()[i] == s[i]);
        lemma_filter_keep_all(s.drop_last(), cfg, ctx);
        assert(filter_keep(s, cfg, ctx) =~= s.drop_last().push(s.last()));
        assert(s.drop_last().push(s.last()) =~= s);
    }
}

/// With no part-of-speech selection and a mode other than bounded, the
/// active set is the corpus itself, unchanged and in order. In bounded
/// mode the same holds whenever the window covers every rank of the
/// corpus; a window that excludes a rank is the one configuration where
/// an empty selection does not return the corpus whole.
pub proof fn lemma_unfiltered_is_corpus(corpus: Seq<FrequencyWord>, cfg: FilterConfig)
    requires
        cfg.active_pos@.len() == 0,
        cfg.mode is Bounded ==> forall|i: int|
            0 <= i < corpus.len() ==> cfg.rank_min <= (#[trigger] corpus[i]).rank
                <= cfg.effective_rank_max(),
    ensures
        active_set_spec(corpus, cfg) == corpus,
{
    lemma_all_kept_is_corpus(corpus, cfg);
}

/// Every entry of the active set passes the filter; in particular, in
/// bounded mode with an uncrossed window, its rank lies inside
/// `[rank_min, rank_max]`.
pub proof fn lemma_active_set_keeps(corpus: Seq<FrequencyWord>, cfg: FilterConfig)
    ensures
        forall|i: int|
            0 <= i < active_set_spec(corpus, cfg).len() ==> keeps(
                #[trigger] active_set_spec(corpus, cfg)[i],
                cfg,
                corpus,
            ),
{
    lemma_filter_keep_elements(corpus, cfg, corpus);
}

proof fn lemma_filter_keep_elements(
    s: Seq<FrequencyWord>,
    cfg: FilterConfig,
    ctx: Seq<FrequencyWord>,
)
    ensures
        forall|i: int|
            0 <= i < filter_keep(s, cfg, ctx).len() ==> keeps(
                #[trigger] filter_keep(s, cfg, ctx)[i],
                cfg,
                ctx,
            ),
    decreases s.len(),
{
    if s.len() > 0 {
        lemma_filter_keep_elements(s.drop_last(), cfg, ctx);
        let rest = filter_keep(s.drop_last(), cfg, ctx);
        assert forall|i: int| 0 <= i < filter_keep(s, cfg, ctx).len() implies keeps(
            #[trigger] filter_keep(s, cfg, ctx)[i],
            cfg,
            ctx,
        ) by {
            if keeps(s.last(), cfg, ctx) {
                assert(filter_keep(s, cfg, ctx) == rest.push(s.last()));
                if i < rest.len() {
                    assert(filter_keep(s, cfg, ctx)[i] == rest[i]);
                } else {
                    assert(filter_keep(s, cfg, ctx)[i] == s.last());
                }
            }
        }
    }
}

/// In bounded mode with an uncrossed window, every entry of the active set
/// has its rank inside the window.
pub proof fn lemma_bounded_ranks_in_window(corpus: Seq<FrequencyWord>, cfg: FilterConfig)
    requires
        cfg.mode is Bounded,
        cfg.rank_min <= cfg.rank_max,
    ensures
        forall|i: int|
            0 <= i < active_set_spec(corpus, cfg).len() ==> cfg.rank_min <= (
            #[trigger] active_set_spec(corpus, cfg)[i]).rank <= cfg.rank_max,
{
    lemma_active_set_keeps(corpus, cfg);
}

} // verus!

verus! {

/// No tag occurs twice.
pub open spec fn nodup_tags(tags: Seq<String>) -> bool {
    forall|a: int, b: int| 0 <= a < b < tags.len() ==> tags[a]@ != tags[b]@
}

fn position_of_tag(tags: &Vec<String>, t: &str) -> (r: Option<usize>)
    ensures
        (r is Some) == contains_str(tags@, t@),
        r is Some ==> r->Some_0 < tags@.len() && tags@[r->Some_0 as int]@ == t@,
{
    let mut i: usize = 0;
    while i < tags.len()
        invariant
            i <= tags@.len(),
            forall|j: int| 0 <= j < i ==> tags@[j]@ != t@,
        decreases tags@.len() - i,
    {
        if str_eq(tags[i].as_str(), t) {
            return Some(i);
        }
        i = i + 1;
    }
    None
}

impl FilterConfig {
    /// One part-of-speech toggle from the settings surface. An empty
    /// selection means "every tag enabled", so the first untoggle first
    /// materializes the full observed tag list (`all_pos`) before removing
    /// one; toggling a tag on adds it when missing, toggling it off
    /// removes it. The selection acts as a set: the contract pins down
    /// membership after the toggle.
    pub fn toggle_pos(&mut self, label: &str, all_pos: &Vec<String>, pressed: bool)
        requires
            nodup_tags(old(self).active_pos@),
            nodup_tags(all_pos@),
        ensures
            nodup_tags(final(self).active_pos@),
            forall|t: Seq<char>|
                #[trigger] contains_str(final(self).active_pos@, t) == ({
                    let base = if old(self).active_pos@.len() == 0 {
                        all_pos@
                    } else {
                        old(self).active_pos@
                    };
                    if pressed {
                        contains_str(base, t) || t == label@
                    } else {
                        contains_str(base, t) && t != label@
                    }
                }),
            final(self).mode == old(self).mode,
            final(self).rank_min == old(self).rank_min,
            final(self).rank_max == old(self).rank_max,
            final(self).bounded_order == old(self).bounded_order,
    {
        let ghost base0 = if old(self).active_pos@.len() == 0 {
            all_pos@
        } else {
            old(self).active_pos@
        };
        if self.active_pos.len() == 0 {
            let copied = all_pos.clone();
            proof {
                assert forall|k: int| 0 <= k < copied@.len() implies copied@[k] == all_pos@[k] by {
                    assert(cloned::<String>(all_pos@[k], copied@[k]));
                }
            }
            self.active_pos = copied;
        }
        proof {
            assert forall|t: Seq<char>| #[trigger]
                contains_str(self.active_pos@, t) == contains_str(base0, t) by {
                if contains_str(self.active_pos@, t) {
                    let k = choose|k: int|
                        0 <= k < self.active_pos@.len() && self.active_pos@[k]@ == t;
                    assert(base0[k]@ == t);
                }
                if contains_str(base0, t) {
                    let k = choose|k: int| 0 <= k < base0.len() && base0[k]@ == t;
                    assert(self.active_pos@[k]@ == t);
                }
            }
            assert(nodup_tags(self.active_pos@)) by {
                assert(forall|k: int|
                    0 <= k < self.active_pos@.len() ==> #[trigger] self.active_pos@[k]@
                        == base0[k]@);
            }
        }
        let ghost base = self.active_pos@;
        let pos = position_of_tag(&self.active_pos, label);
        if pressed {
            match pos {
                Some(_) => {},
                None => {
                    self.active_pos.push(String::from_str(label));
                    proof {
                        assert forall|t: Seq<char>| #[trigger]
                            contains_str(self.active_pos@, t) == (contains_str(base, t) || t
                                == label@) by {
                            if contains_str(self.active_pos@, t) {
                                let k = choose|k: int|
                                    0 <= k < self.active_pos@.len() && self.active_pos@[k]@ == t;
                                if k < base.len() {
                                    assert(base[k]@ == t);
                                }
                            }
                            if contains_str(base, t) {
                                let k = choose|k: int| 0 <= k < base.len() && base[k]@ == t;
                                assert(self.active_pos@[k]@ == t);
                            }
                            if t == label@ {
                                assert(self.active_pos@[base.len() as int]@ == t);
                            }
                        }
                    }
                },
            }
        } else {
            match pos {
                Some(i) => {
                    self.active_pos.remove(i);
                    proof {
                        assert forall|t: Seq<char>| #[trigger]
                            contains_str(self.active_pos@, t) == (contains_str(base, t) && t
                                != label@) by {
                            assert(forall|k: int|
                                0 <= k < self.active_pos@.len() ==> #[trigger] self.active_pos@[k]
                                    == (if k < i {
                                    base[k]
                                } else {
                                    base[k + 1]
                                }));
                            if contains_str(self.active_pos@, t) {
                                let k = choose|k: int|
                                    0 <= k < self.active_pos@.len() && self.active_pos@[k]@ == t;
                                if k < i {
                                    assert(base[k]@ == t);
                                    assert(t != label@);
                                } else {
                                    assert(base[k + 1]@ == t);
                                    assert(t != label@);
                                }
                            }
                            if contains_str(base, t) && t != label@ {
                                let k = choose|k: int| 0 <= k < base.len() && base[k]@ == t;
                                if k < i {
                                    assert(self.active_pos@[k]@ == t);
                                } else {
                                    assert(k != i);
                                    assert(self.active_pos@[k - 1]@ == t);
                                }
                            }
                        }
                    }
                },
                None => {
                    proof {
                        assert forall|t: Seq<char>| #[trigger]
                            contains_str(self.active_pos@, t) == (contains_str(base, t) && t
                                != label@) by {
                            if contains_str(base, t) && t == label@ {
                                let k = choose|k: int| 0 <= k < base.len() && base[k]@ == t;
                            }
                        }
                    }
                },
            }
        }
    }
}

} // verus!
