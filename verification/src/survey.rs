//! What is left of marked pages: counting the first words of pages against
//! what was written there.
//!
//! A survey is given the first word of every page of a range, in order: the
//! word of page `i` stands at offset `i * PAGE`.

use crate::guest::RAM_GPA;
use crate::ledger::PAGE;
use crate::machine::two64;
use crate::programs::{raised, visits};
use crate::options::{gib, shifted};
use crate::stride::{law_walk_visits_every_stride, offsets, Strides};
use vstd::prelude::*;

verus! {

/// What a marked page starts with, before its offset is mixed in.
pub const PATTERN: u64 = 0xC0DE_D00D_FEED_FACE;

/// What a calibrated page starts with, before its offset is mixed in.
pub const TOUCH_PATTERN: u64 = 0xA5A5_A5A5_A5A5_A5A5;

/// The marker of the page at `off`.
pub open spec fn marker_of(off: u64) -> u64 {
    PATTERN ^ off
}

/// What the marked page at `off` starts with.
pub fn marker(off: u64) -> (r: u64)
    ensures
        r == marker_of(off),
{
    PATTERN ^ off
}

/// What a touched page at `off` starts with.
pub open spec fn touch_word_of(off: u64) -> u64 {
    off ^ TOUCH_PATTERN
}

pub fn touch_word(off: u64) -> (r: u64)
    ensures
        r == touch_word_of(off),
{
    off ^ TOUCH_PATTERN
}

/// The offset of page `i`.
pub open spec fn page_off(i: int) -> int {
    i * PAGE
}

/// How many of the first words pass `judge`, which is given the page's index
/// and its word.
pub open spec fn tally(words: Seq<u64>, judge: spec_fn(int, u64) -> bool) -> nat
    decreases words.len(),
{
    if words.len() == 0 {
        0
    } else {
        tally(words.drop_last(), judge) + if judge(words.len() - 1, words.last()) {
            1nat
        } else {
            0nat
        }
    }
}

proof fn lemma_tally_bounded(words: Seq<u64>, judge: spec_fn(int, u64) -> bool)
    ensures
        tally(words, judge) <= words.len(),
    decreases words.len(),
{
    if words.len() > 0 {
        lemma_tally_bounded(words.drop_last(), judge);
    }
}

proof fn lemma_tally_next(words: Seq<u64>, i: int, judge: spec_fn(int, u64) -> bool)
    requires
        0 <= i < words.len(),
    ensures
        tally(words.take(i + 1), judge) == tally(words.take(i), judge) + if judge(i, words[i]) {
            1nat
        } else {
            0nat
        },
        tally(words.take(i), judge) <= i,
{
    assert(words.take(i + 1).drop_last() =~= words.take(i));
    lemma_tally_bounded(words.take(i), judge);
}

/// A tally over pages that all pass, or none of which passes.
pub proof fn lemma_tally_extremes(words: Seq<u64>, judge: spec_fn(int, u64) -> bool)
    ensures
        (forall|i: int| 0 <= i < words.len() ==> judge(i, #[trigger] words[i])) ==> tally(
            words,
            judge,
        ) == words.len(),
        (forall|i: int| 0 <= i < words.len() ==> !judge(i, #[trigger] words[i])) ==> tally(
            words,
            judge,
        ) == 0,
    decreases words.len(),
{
    if words.len() > 0 {
        let rest = words.drop_last();
        lemma_tally_extremes(rest, judge);
        assert(forall|i: int| 0 <= i < rest.len() ==> rest[i] == words[i]);
        if forall|i: int| 0 <= i < words.len() ==> judge(i, #[trigger] words[i]) {
            assert forall|i: int| 0 <= i < rest.len() implies judge(i, #[trigger] rest[i]) by {
                assert(judge(i, words[i]));
            }
        }
        if forall|i: int| 0 <= i < words.len() ==> !judge(i, #[trigger] words[i]) {
            assert forall|i: int| 0 <= i < rest.len() implies !judge(i, #[trigger] rest[i]) by {
                assert(!judge(i, words[i]));
            }
        }
    }
}

/// Whether every page of the survey has a 64-bit offset.
pub open spec fn offsets_fit(pages: nat) -> bool {
    page_off(pages as int) <= u64::MAX
}

/// A dirty buffer marked as discardable, whose survival tells whether
/// pressure ever reached anonymous memory.
#[derive(Clone, Copy, PartialEq, Eq, Structural, Debug)]
pub struct Canary {
    pub size: u64,
}

/// What pressure did to the canary.
#[derive(Clone, Copy, PartialEq, Eq, Structural, Debug)]
pub struct Verdict {
    pub discarded: usize,
    pub total: usize,
}

impl Verdict {
    /// Whether at least half the canary was discarded.
    pub open spec fn half_gone(self) -> bool {
        self.discarded * 2 >= self.total
    }

    /// Pressure demonstrably reached anonymous memory: at least half the
    /// canary was discarded.
    pub fn conclusive(&self) -> (r: bool)
        ensures
            r == self.half_gone(),
    {
        self.discarded >= self.total || self.discarded >= self.total - self.discarded
    }

    /// What a report says of the run: a canary that survived proves nothing,
    /// and the report must say so.
    pub fn reading(&self) -> (r: &'static str)
        ensures
            r@ == if self.half_gone() {
                "pressure reached anonymous memory; the run is conclusive"@
            } else {
                "pressure NEVER reached anonymous memory; the run is INCONCLUSIVE (raise --pressure-gb)"@
            },
    {
        if self.conclusive() {
            "pressure reached anonymous memory; the run is conclusive"
        } else {
            "pressure NEVER reached anonymous memory; the run is INCONCLUSIVE (raise --pressure-gb)"
        }
    }
}

/// Whether the word of page `i` is no longer its marker.
pub open spec fn discarded() -> spec_fn(int, u64) -> bool {
    |i: int, w: u64| w != marker_of(page_off(i) as u64)
}

/// Whether the word of page `i` is still its marker.
pub open spec fn intact() -> spec_fn(int, u64) -> bool {
    |i: int, w: u64| w == marker_of(page_off(i) as u64)
}

/// Whether the word of page `i` is zero in place of its marker.
pub open spec fn zeroed() -> spec_fn(int, u64) -> bool {
    |i: int, w: u64| w != marker_of(page_off(i) as u64) && w == 0
}

impl Canary {
    /// A canary of `gib` GiB.
    pub fn arm(gib_count: u64) -> (r: Canary)
        ensures
            r.size == shifted(gib_count, 0x4000_0000),
    {
        Canary { size: gib(gib_count) }
    }

    /// The offsets of the canary's pages.
    pub fn pages(&self) -> (r: Strides)
        ensures
            r.wf(),
            r.remaining() == offsets(0, self.size as int, PAGE as int),
    {
        Strides::over(0, self.size, PAGE)
    }

    /// Counts the pages whose marker no longer reads back.
    pub fn survey(&self, words: &Vec<u64>) -> (r: Verdict)
        requires
            words@.len() == self.size / PAGE,
        ensures
            r.total == self.size / PAGE,
            r.discarded == tally(words@, discarded()),
    {
        let total: usize = words.len();
        let mut gone: usize = 0;
        let mut off: u64 = 0;
        let mut i: usize = 0;
        assert(words@.take(0) =~= Seq::<u64>::empty());
        while i < total
            invariant
                total == words@.len(),
                total == self.size / PAGE,
                i <= total,
                off == page_off(i as int),
                gone == tally(words@.take(i as int), discarded()),
                gone <= i,
            decreases total - i,
        {
            proof {
                lemma_tally_next(words@, i as int, discarded());
            }
            if words[i] != marker(off) {
                gone = gone + 1;
            }
            off = off + PAGE;
            i = i + 1;
        }
        assert(words@.take(total as int) =~= words@);
        Verdict { discarded: gone, total }
    }
}

/// What a survey of a discard buffer found.
#[derive(Clone, Copy, PartialEq, Eq, Structural, Debug)]
pub struct DiscardSurvey {
    pub intact: usize,
    pub zeroed: usize,
}

/// Counts the pages whose marker survived, and those that read zero instead.
pub fn survey(words: &Vec<u64>) -> (r: DiscardSurvey)
    requires
        offsets_fit(words@.len()),
    ensures
        r.intact == tally(words@, intact()),
        r.zeroed == tally(words@, zeroed()),
{
    let total: usize = words.len();
    let mut kept: usize = 0;
    let mut gone: usize = 0;
    let mut off: u64 = 0;
    let mut i: usize = 0;
    assert(words@.take(0) =~= Seq::<u64>::empty());
    while i < total
        invariant
            total == words@.len(),
            offsets_fit(total as nat),
            i <= total,
            off == page_off(i as int),
            kept == tally(words@.take(i as int), intact()),
            gone == tally(words@.take(i as int), zeroed()),
            kept <= i,
            gone <= i,
        decreases total - i,
    {
        proof {
            lemma_tally_next(words@, i as int, intact());
            lemma_tally_next(words@, i as int, zeroed());
        }
        if words[i] == marker(off) {
            kept = kept + 1;
        } else if words[i] == 0 {
            gone = gone + 1;
        }
        off = off + PAGE;
        i = i + 1;
    }
    assert(words@.take(total as int) =~= words@);
    DiscardSurvey { intact: kept, zeroed: gone }
}

/// A zeroed page never passes for a marked one.
pub proof fn law_zero_is_no_marker(i: int)
    requires
        i >= 0,
        page_off(i) <= u64::MAX,
    ensures
        marker_of(page_off(i) as u64) != 0,
{
    let off = page_off(i) as u64;
    assert(off % 0x4000 == 0);
    assert(0xC0DE_D00D_FEED_FACEu64 ^ off != 0) by (bit_vector)
        requires
            off % 0x4000 == 0,
    ;
}

/// No two pages share a marker, so a page that moved does not pass for the
/// one that was there.
pub proof fn law_markers_are_distinct(a: u64, b: u64)
    requires
        marker_of(a) == marker_of(b),
    ensures
        a == b,
{
    assert(0xC0DE_D00D_FEED_FACEu64 ^ a == 0xC0DE_D00D_FEED_FACEu64 ^ b ==> a == b) by (bit_vector);
}

/// A canary that pressure never reached is reported untouched, and the run
/// inconclusive.
pub proof fn law_untouched_canary_is_inconclusive(words: Seq<u64>, v: Verdict)
    requires
        words.len() > 0,
        v.total == words.len(),
        v.discarded == tally(words, discarded()),
        forall|i: int|
            0 <= i < words.len() ==> #[trigger] words[i] == marker_of(page_off(i) as u64),
    ensures
        v.discarded == 0,
        !v.half_gone(),
{
    lemma_tally_extremes(words, discarded());
}

/// A canary that was discarded whole is reported whole, and the run
/// conclusive.
pub proof fn law_discarded_canary_is_conclusive(words: Seq<u64>, v: Verdict)
    requires
        offsets_fit(words.len()),
        v.total == words.len(),
        v.discarded == tally(words, discarded()),
        forall|i: int| 0 <= i < words.len() ==> #[trigger] words[i] == 0,
    ensures
        v.discarded == v.total,
        v.half_gone(),
{
    assert forall|i: int| 0 <= i < words.len() implies discarded()(i, #[trigger] words[i]) by {
        law_zero_is_no_marker(i);
    }
    lemma_tally_extremes(words, discarded());
}

/// The canary's walk visits the pages that its survey is given, in order: the
/// word of page `i` is read at its offset.
pub proof fn law_canary_walk_is_the_survey(c: Canary, gib_count: u64)
    requires
        c.size == shifted(gib_count, 0x4000_0000),
    ensures
        offsets(0, c.size as int, PAGE as int).len() == c.size / PAGE,
        forall|i: int|
            0 <= i < c.size / PAGE ==> #[trigger] offsets(0, c.size as int, PAGE as int)[i]
                == page_off(i),
{
    law_walk_visits_every_stride(0, c.size as int, PAGE as int);
    let n = gib_count * 0x4000_0000;
    assert(n % 0x4000 == 0);
    assert(c.size as int % 0x4000 == 0);
}

/// What a page of guest RAM must hold after the guest stamped its address
/// and swept it `sweeps` times.
pub open spec fn swept_word(i: int, sweeps: u64) -> int {
    (RAM_GPA + page_off(i) + sweeps) % two64()
}

/// Whether the word of page `i` counts its sweeps.
pub open spec fn counts(sweeps: u64) -> spec_fn(int, u64) -> bool {
    |i: int, w: u64| w == swept_word(i, sweeps)
}

/// The pages that do not count their sweeps, with their words, in order.
pub open spec fn losses(words: Seq<u64>, sweeps: u64) -> Seq<(u64, u64)>
    decreases words.len(),
{
    if words.len() == 0 {
        Seq::empty()
    } else {
        let i = words.len() - 1;
        let before = losses(words.drop_last(), sweeps);
        if words.last() == swept_word(i, sweeps) {
            before
        } else {
            before.push((page_off(i) as u64, words.last()))
        }
    }
}

/// How many lost pages a report shows.
pub const EXAMPLES: usize = 3;

/// What a survey of guest RAM found.
pub struct RamSurvey {
    pub intact: usize,
    pub lost: usize,
    /// Offset and word of the first lost pages.
    pub examples: Vec<(u64, u64)>,
}

/// The first elements of a sequence, at most `n`.
pub open spec fn first_of<T>(s: Seq<T>, n: int) -> Seq<T> {
    if s.len() <= n {
        s
    } else {
        s.take(n)
    }
}

/// Counts the pages of guest RAM that hold their address plus `sweeps`, and
/// those that do not. A parked guest has swept none.
pub fn survey_ram(words: &Vec<u64>, sweeps: u64) -> (r: RamSurvey)
    requires
        offsets_fit(words@.len()),
    ensures
        r.intact == tally(words@, counts(sweeps)),
        r.lost == words@.len() - r.intact,
        r.lost == losses(words@, sweeps).len(),
        r.examples@ == first_of(losses(words@, sweeps), EXAMPLES as int),
{
    let total: usize = words.len();
    let mut kept: usize = 0;
    let mut lost: usize = 0;
    let mut examples: Vec<(u64, u64)> = Vec::new();
    let mut off: u64 = 0;
    let mut i: usize = 0;
    assert(words@.take(0) =~= Seq::<u64>::empty());
    while i < total
        invariant
            total == words@.len(),
            offsets_fit(total as nat),
            i <= total,
            off == page_off(i as int),
            kept == tally(words@.take(i as int), counts(sweeps)),
            kept + lost == i,
            lost == losses(words@.take(i as int), sweeps).len(),
            examples@ == first_of(losses(words@.take(i as int), sweeps), EXAMPLES as int),
        decreases total - i,
    {
        proof {
            lemma_tally_next(words@, i as int, counts(sweeps));
            assert(words@.take(i + 1).drop_last() =~= words@.take(i as int));
        }
        let expected: u64 = RAM_GPA.wrapping_add(off).wrapping_add(sweeps);
        assert(expected == swept_word(i as int, sweeps));
        if words[i] == expected {
            kept = kept + 1;
        } else {
            lost = lost + 1;
            if examples.len() < EXAMPLES {
                examples.push((off, words[i]));
            }
        }
        off = off + PAGE;
        i = i + 1;
    }
    assert(words@.take(total as int) =~= words@);
    RamSurvey { intact: kept, lost, examples }
}

/// What happens to a page between the stamp and the survey.
pub enum PageEvent {
    /// The guest adds one.
    Increment,
    /// The host throws the page away; it reads zero from then on.
    Discard,
}

/// The word of a page that started at `start`, after `events`.
pub open spec fn word_after(start: int, events: Seq<PageEvent>) -> int
    decreases events.len(),
{
    if events.len() == 0 {
        start
    } else {
        let before = word_after(start, events.drop_last());
        match events.last() {
            PageEvent::Increment => (before + 1) % two64(),
            PageEvent::Discard => 0,
        }
    }
}

/// How often the guest added one.
pub open spec fn increments(events: Seq<PageEvent>) -> nat
    decreases events.len(),
{
    if events.len() == 0 {
        0
    } else {
        increments(events.drop_last()) + if events.last() is Increment {
            1nat
        } else {
            0nat
        }
    }
}

/// Whether the page was never thrown away.
pub open spec fn never_discarded(events: Seq<PageEvent>) -> bool {
    forall|i: int| 0 <= i < events.len() ==> (#[trigger] events[i]) is Increment
}

/// A page at the expected counter was never discarded, and one that was
/// discarded, at any moment, ends with a counter that cannot have caught up.
pub proof fn law_counter_tells_every_discard(start: int, events: Seq<PageEvent>)
    requires
        start > 0,
        start + increments(events) < two64(),
    ensures
        word_after(start, events) == start + increments(events) <==> never_discarded(events),
        0 <= word_after(start, events) <= start + increments(events),
    decreases events.len(),
{
    if events.len() > 0 {
        let rest = events.drop_last();
        law_counter_tells_every_discard(start, rest);
        assert(forall|i: int| 0 <= i < rest.len() ==> rest[i] == events[i]);
        if never_discarded(events) {
            assert forall|i: int| 0 <= i < rest.len() implies (#[trigger] rest[i]) is Increment by {
                assert(events[i] is Increment);
            }
        }
        if never_discarded(rest) && events.last() is Increment {
            assert forall|i: int| 0 <= i < events.len() implies (#[trigger] events[i]) is Increment by {
                if i < rest.len() {
                    assert(rest[i] is Increment);
                }
            }
        }
        if events.last() is Discard {
            assert(!(events[events.len() - 1] is Increment));
        }
    }
}

/// The survey after a hammer run misses no discard and raises no false alarm:
/// when page `i` went through `histories[i]`, with one increment per sweep, it
/// counts as intact exactly if it was never discarded, and none counts as
/// lost exactly if none was.
pub proof fn law_survey_finds_every_discarded_page(
    words: Seq<u64>,
    histories: Seq<Seq<PageEvent>>,
    sweeps: u64,
)
    requires
        words.len() == histories.len(),
        RAM_GPA + page_off(words.len() as int) + sweeps < two64(),
        forall|i: int|
            0 <= i < words.len() ==> #[trigger] words[i] == word_after(
                RAM_GPA + page_off(i),
                histories[i],
            ) && increments(histories[i]) == sweeps,
    ensures
        forall|i: int|
            0 <= i < words.len() ==> (counts(sweeps)(i, #[trigger] words[i]) <==> never_discarded(
                histories[i],
            )),
        losses(words, sweeps).len() == 0 <==> forall|i: int|
            0 <= i < words.len() ==> never_discarded(#[trigger] histories[i]),
{
    assert forall|i: int| 0 <= i < words.len() implies (counts(sweeps)(i, #[trigger] words[i])
        <==> never_discarded(histories[i])) by {
        assert(words[i] == word_after(RAM_GPA + page_off(i), histories[i]));
        assert(page_off(i) <= page_off(words.len() as int));
        law_counter_tells_every_discard(RAM_GPA + page_off(i), histories[i]);
    }
    lemma_no_losses(words, sweeps);
    assert forall|i: int| 0 <= i < words.len() && losses(words, sweeps).len() == 0 implies
        never_discarded(#[trigger] histories[i]) by {
        assert(counts(sweeps)(i, words[i]));
    }
}

/// Nothing is lost exactly when every page counts its sweeps.
proof fn lemma_no_losses(words: Seq<u64>, sweeps: u64)
    ensures
        losses(words, sweeps).len() == 0 <==> forall|i: int|
            0 <= i < words.len() ==> counts(sweeps)(i, #[trigger] words[i]),
    decreases words.len(),
{
    if words.len() > 0 {
        let rest = words.drop_last();
        lemma_no_losses(rest, sweeps);
        assert(forall|i: int| 0 <= i < rest.len() ==> rest[i] == words[i]);
        if losses(words, sweeps).len() == 0 {
            assert forall|i: int| 0 <= i < words.len() implies counts(sweeps)(
                i,
                #[trigger] words[i],
            ) by {
                if i < rest.len() {
                    assert(counts(sweeps)(i, rest[i]));
                }
            }
        }
        if forall|i: int| 0 <= i < words.len() ==> counts(sweeps)(i, #[trigger] words[i]) {
            assert forall|i: int| 0 <= i < rest.len() implies counts(sweeps)(
                i,
                #[trigger] rest[i],
            ) by {
                assert(counts(sweeps)(i, words[i]));
            }
            assert(counts(sweeps)(words.len() - 1, words[words.len() - 1]));
        }
    }
}

/// One page more or less changes a tally by what is thought of that page.
proof fn lemma_tally_of_change(
    words: Seq<u64>,
    i: int,
    w: u64,
    judge: spec_fn(int, u64) -> bool,
)
    requires
        0 <= i < words.len(),
    ensures
        tally(words.update(i, w), judge) + (if judge(i, words[i]) {
            1int
        } else {
            0
        }) == tally(words, judge) + (if judge(i, w) {
            1int
        } else {
            0
        }),
    decreases words.len(),
{
    let changed = words.update(i, w);
    if i == words.len() - 1 {
        assert(changed.drop_last() =~= words.drop_last());
    } else {
        lemma_tally_of_change(words.drop_last(), i, w, judge);
        assert(changed.drop_last() =~= words.drop_last().update(i, w));
    }
}

/// Whatever a marked page reads once its marker is gone, it counts exactly once
/// as discarded and no longer as intact, and as zeroed exactly if it reads
/// zero; the other pages count as before.
pub proof fn law_every_lost_marker_counts_once(words: Seq<u64>, i: int, w: u64)
    requires
        0 <= i < words.len(),
        words[i] == marker_of(page_off(i) as u64),
        w != marker_of(page_off(i) as u64),
    ensures
        tally(words.update(i, w), discarded()) == tally(words, discarded()) + 1,
        tally(words.update(i, w), intact()) == tally(words, intact()) - 1,
        tally(words.update(i, w), zeroed()) == tally(words, zeroed()) + if w == 0 {
            1int
        } else {
            0
        },
{
    lemma_tally_of_change(words, i, w, discarded());
    lemma_tally_of_change(words, i, w, intact());
    lemma_tally_of_change(words, i, w, zeroed());
}

/// Every page is either intact or discarded, and a zeroed page is discarded.
pub proof fn law_pages_are_intact_or_discarded(words: Seq<u64>)
    ensures
        tally(words, intact()) + tally(words, discarded()) == words.len(),
        tally(words, zeroed()) <= tally(words, discarded()),
    decreases words.len(),
{
    if words.len() > 0 {
        law_pages_are_intact_or_discarded(words.drop_last());
    }
}

/// A run is conclusive exactly if no more of the canary is left than is gone,
/// and stays so when more goes.
pub proof fn law_half_a_canary_is_enough(v: Verdict, more: Verdict)
    requires
        v.total == more.total,
        v.discarded <= more.discarded,
    ensures
        v.half_gone() <==> v.total - v.discarded <= v.discarded,
        v.half_gone() ==> more.half_gone(),
        v.discarded == v.total ==> v.half_gone(),
        v.discarded == 0 && v.total > 0 ==> !v.half_gone(),
{
}

/// No two offsets are touched with the same word, and no page with zero.
pub proof fn law_touch_words_are_distinct(a: u64, b: u64)
    ensures
        touch_word_of(a) == touch_word_of(b) ==> a == b,
        a % 0x4000 == 0 ==> touch_word_of(a) != 0,
        touch_word_of(touch_word_of(a)) == a,
{
    assert(a ^ 0xA5A5_A5A5_A5A5_A5A5u64 == b ^ 0xA5A5_A5A5_A5A5_A5A5u64 ==> a == b) by (bit_vector);
    assert((a ^ 0xA5A5_A5A5_A5A5_A5A5u64) ^ 0xA5A5_A5A5_A5A5_A5A5u64 == a) by (bit_vector);
    assert(a % 0x4000 == 0 ==> a ^ 0xA5A5_A5A5_A5A5_A5A5u64 != 0) by (bit_vector);
}

/// What guest RAM holds after the guest stamped every page with its address and
/// then swept all of it `n` times is what the survey expects.
pub proof fn law_the_survey_expects_what_sweeps_leave(
    mem: Map<int, int>,
    ram_size: int,
    i: int,
    n: u64,
)
    requires
        0 <= i,
        page_off(i) < ram_size,
        forall|a: int| visits(RAM_GPA as int, RAM_GPA + ram_size, a) ==> #[trigger] mem[a] == a,
    ensures
        raised(mem, RAM_GPA as int, RAM_GPA + ram_size, n as nat)[RAM_GPA + page_off(i)]
            == swept_word(i, n),
        n == 0 && RAM_GPA + ram_size <= two64() ==> mem[RAM_GPA + page_off(i)] == swept_word(i, 0),
{
    assert(visits(RAM_GPA as int, RAM_GPA + ram_size, RAM_GPA + page_off(i)));
}

/// The losses are exactly the pages that do not count their sweeps, each with
/// its offset and its word, in the order of their offsets: so the first ones
/// that are shown are the first ones there are.
pub proof fn law_losses_are_the_lost_pages_in_order(words: Seq<u64>, sweeps: u64)
    requires
        offsets_fit(words.len()),
    ensures
        forall|k: int|
            0 <= k < losses(words, sweeps).len() ==> lost_at(
                words,
                sweeps,
                #[trigger] losses(words, sweeps)[k],
            ),
        forall|k: int, l: int|
            0 <= k < l < losses(words, sweeps).len() ==> #[trigger] losses(words, sweeps)[k].0
                < #[trigger] losses(words, sweeps)[l].0,
        losses(words, sweeps).len() + tally(words, counts(sweeps)) == words.len(),
    decreases words.len(),
{
    if words.len() > 0 {
        let rest = words.drop_last();
        let n = rest.len() as int;
        law_losses_are_the_lost_pages_in_order(rest, sweeps);
        let before = losses(rest, sweeps);
        let all = losses(words, sweeps);
        assert forall|k: int| 0 <= k < before.len() implies lost_at(
            words,
            sweeps,
            #[trigger] before[k],
        ) && before[k].0 < page_off(n) by {
            assert(lost_at(rest, sweeps, before[k]));
            let i = choose|i: int|
                #![trigger rest[i]]
                0 <= i < rest.len() && before[k] == (page_off(i) as u64, rest[i]) && rest[i]
                    != swept_word(i, sweeps);
            assert(words[i] == rest[i]);
            assert(page_off(i) < page_off(n));
        }
        if words.last() != swept_word(n, sweeps) {
            assert(lost_at(words, sweeps, (page_off(n) as u64, words[n])));
            assert forall|k: int| 0 <= k < all.len() implies lost_at(
                words,
                sweeps,
                #[trigger] all[k],
            ) by {
                if k < before.len() {
                    assert(all[k] == before[k]);
                }
            }
            assert forall|k: int, l: int| 0 <= k < l < all.len() implies #[trigger] all[k].0
                < #[trigger] all[l].0 by {
                assert(all[k] == before[k]);
                if l < before.len() {
                    assert(all[l] == before[l]);
                }
            }
        }
    }
}

/// Whether `loss` is the offset and the word of a page that does not count its
/// sweeps.
pub open spec fn lost_at(words: Seq<u64>, sweeps: u64, loss: (u64, u64)) -> bool {
    exists|i: int|
        #![trigger words[i]]
        0 <= i < words.len() && loss == (page_off(i) as u64, words[i]) && words[i] != swept_word(
            i,
            sweeps,
        )
}

/// At most three losses are shown, and all of them where there are no more.
pub proof fn law_the_first_losses_are_shown(all: Seq<(u64, u64)>, k: int)
    ensures
        first_of(all, EXAMPLES as int).len() == if all.len() < 3 {
            all.len() as int
        } else {
            3
        },
        0 <= k < first_of(all, EXAMPLES as int).len() ==> first_of(all, EXAMPLES as int)[k]
            == all[k],
{
}

}
