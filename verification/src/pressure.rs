//! A deterministic memory-pressure generator: a child process dirties memory
//! a GiB at a time and holds it.

use crate::ledger::PAGE;
use crate::options::Advice;
use crate::stride::{law_walk_visits_every_stride, offsets, Strides};
use crate::text::{decimal_of, lemma_decimal_reads_back, parse_u64, same, u64_value};
use vstd::prelude::*;

verus! {

/// What the generator maps at a time.
pub const CHUNK: u64 = 0x4000_0000;

/// What a dirtied page starts with, before its offset is added.
pub const DIRT: u64 = 0xDEAD_0000;

/// The pressure applied when the command line names none, in GiB.
pub const DEFAULT_PRESSURE_GB: u64 = 48;

/// How long pressure is held once the generator reports it.
pub const HOLD_SECS: u64 = 8;

/// How long the pageout thread is given to settle after release.
pub const SETTLE_SECS: u64 = 2;

/// What the generator prints when all its memory is dirty.
pub open spec fn holding_text() -> Seq<char> {
    "HOLDING"@
}

/// Whether the first line of the child says that it holds its memory.
pub fn reached_holding(first_line: &Option<String>) -> (r: bool)
    ensures
        r == (first_line is Some && first_line->0@ == holding_text()),
{
    match first_line {
        Some(line) => same(line.as_str(), "HOLDING"),
        None => false,
    }
}

/// The generator at work.
#[derive(Clone, Copy, PartialEq, Eq, Structural, Debug)]
pub struct Generator {
    /// GiB asked for.
    pub gb: u64,
    /// GiB held.
    pub held: u64,
    /// A mapping failed: no more are tried.
    pub exhausted: bool,
}

/// What the generator does next.
#[derive(Clone, Copy, PartialEq, Eq, Structural, Debug)]
pub enum GeneratorAction {
    /// Map another chunk and dirty it.
    Grow,
    /// All that was asked for is dirty: say so, and hold it until killed.
    Hold,
    /// There is no more to be had: end without saying so.
    GiveUp,
}

impl Generator {
    /// The generator that a text asks for.
    pub open spec fn asked_for(gb: Seq<char>) -> Option<Generator> {
        match u64_value(gb) {
            Some(n) => Some(Generator { gb: n, held: 0, exhausted: false }),
            None => None,
        }
    }

    /// The generator after a mapping that was or was not to be had.
    pub open spec fn after(self, mapped: bool) -> Generator {
        if mapped {
            Generator { held: (self.held + 1) as u64, ..self }
        } else {
            Generator { exhausted: true, ..self }
        }
    }

    /// A generator for the amount the environment names.
    pub fn parse(gb: &str) -> (r: Option<Generator>)
        ensures
            r == Generator::asked_for(gb@),
    {
        match parse_u64(gb) {
            Some(n) => Some(Generator { gb: n, held: 0, exhausted: false }),
            None => None,
        }
    }

    pub open spec fn wf(self) -> bool {
        self.held <= self.gb
    }

    pub open spec fn asks(self) -> GeneratorAction {
        if self.held == self.gb {
            GeneratorAction::Hold
        } else if self.exhausted {
            GeneratorAction::GiveUp
        } else {
            GeneratorAction::Grow
        }
    }

    pub fn action(&self) -> (r: GeneratorAction)
        ensures
            r == self.asks(),
    {
        if self.held == self.gb {
            GeneratorAction::Hold
        } else if self.exhausted {
            GeneratorAction::GiveUp
        } else {
            GeneratorAction::Grow
        }
    }

    /// Takes the outcome of a mapping: whether there is another chunk, dirtied.
    pub fn grown(&mut self, mapped: bool)
        requires
            old(self).wf(),
            old(self).asks() == GeneratorAction::Grow,
        ensures
            final(self).wf(),
            *final(self) == old(self).after(mapped),
    {
        if mapped {
            self.held = self.held + 1;
        } else {
            self.exhausted = true;
        }
    }
}

/// A generator that says it is holding has dirtied all that was asked for; one
/// that ran out of memory never says so.
pub proof fn law_holding_means_all_of_it(g: Generator)
    ensures
        g.asks() == GeneratorAction::Hold ==> g.held == g.gb,
        g.exhausted && g.held < g.gb ==> g.asks() == GeneratorAction::GiveUp,
{
}

/// The offsets of a chunk's pages.
pub fn chunk_pages() -> (r: Strides)
    ensures
        r.wf(),
        r.remaining() == offsets(0, CHUNK as int, PAGE as int),
{
    Strides::over(0, CHUNK, PAGE)
}

/// What the dirtied page at `off` of a chunk starts with.
pub open spec fn dirt_of(off: u64) -> int {
    DIRT + off
}

pub fn dirt(off: u64) -> (r: u64)
    requires
        off < CHUNK,
    ensures
        r == dirt_of(off),
{
    DIRT + off
}

/// Where `--pressure-gb` first stands in the arguments, and the word after it.
pub open spec fn pressure_value(args: Seq<Seq<char>>) -> Option<Seq<char>>
    decreases args.len(),
{
    if args.len() == 0 {
        None
    } else if args[0] == "--pressure-gb"@ {
        if args.len() > 1 {
            Some(args[1])
        } else {
            None
        }
    } else {
        pressure_value(args.drop_first())
    }
}

/// The pressure the command line asks for, in GiB: the number after the first
/// `--pressure-gb`, or the default where there is none. None if what stands
/// there is no number.
pub open spec fn asked_pressure(args: Seq<Seq<char>>) -> Option<u64> {
    match pressure_value(args) {
        Some(v) => u64_value(v),
        None => Some(DEFAULT_PRESSURE_GB),
    }
}

/// Reads the pressure off the command line, the program's name among it.
pub fn parse_pressure(args: &Vec<String>) -> (r: Option<u64>)
    ensures
        r == asked_pressure(crate::text::texts(args@)),
{
    let n: usize = args.len();
    let ghost all = crate::text::texts(args@);
    let mut i: usize = 0;
    assert(all.skip(0) =~= all);
    while i < n
        invariant
            n == args@.len(),
            i <= n,
            all == crate::text::texts(args@),
            pressure_value(all) == pressure_value(all.skip(i as int)),
        decreases n - i,
    {
        assert(all.skip(i as int)[0] == args@[i as int]@);
        if same(args[i].as_str(), "--pressure-gb") {
            if i + 1 < n {
                assert(all.skip(i as int)[1] == args@[i + 1]@);
                return parse_u64(args[i + 1].as_str());
            }
            return Some(DEFAULT_PRESSURE_GB);
        }
        assert(all.skip(i as int).drop_first() =~= all.skip(i + 1));
        i = i + 1;
    }
    Some(DEFAULT_PRESSURE_GB)
}

/// The advices in the order they are calibrated in.
pub fn calibrated_advices() -> (r: Vec<Advice>)
    ensures
        r@ == seq![Advice::DontNeed, Advice::Free, Advice::Reusable],
{
    vec![Advice::DontNeed, Advice::Free, Advice::Reusable]
}

/// The generator after several mappings, as long as it asked for each.
pub open spec fn grown_by(g: Generator, outcomes: Seq<bool>) -> Option<Generator>
    decreases outcomes.len(),
{
    if outcomes.len() == 0 {
        Some(g)
    } else {
        match grown_by(g, outcomes.drop_last()) {
            Some(before) => if before.asks() == GeneratorAction::Grow {
                Some(before.after(outcomes.last()))
            } else {
                None
            },
            None => None,
        }
    }
}

/// A generator asks for another chunk exactly as long as it holds less than was
/// asked for and none was refused; every chunk is a GiB more; a refusal ends
/// it.
pub proof fn law_generators_grow_a_chunk_at_a_time(g: Generator, outcomes: Seq<bool>)
    requires
        g.wf(),
        !g.exhausted,
        grown_by(g, outcomes) is Some,
    ensures
        ({
            let end = grown_by(g, outcomes)->Some_0;
            let refused = outcomes.len() > 0 && !outcomes.last();
            &&& end.wf() && end.gb == g.gb
            &&& end.exhausted == refused
            &&& end.held == g.held + outcomes.len() - if refused {
                1int
            } else {
                0
            }
            &&& end.asks() == GeneratorAction::Grow <==> !refused && end.held < g.gb
            &&& end.asks() == GeneratorAction::Hold <==> end.held == g.gb
            &&& refused ==> end.held < g.gb && end.asks() == GeneratorAction::GiveUp
            &&& forall|i: int| 0 <= i < outcomes.len() - 1 ==> #[trigger] outcomes[i]
        }),
    decreases outcomes.len(),
{
    if outcomes.len() > 0 {
        let first = outcomes.drop_last();
        law_generators_grow_a_chunk_at_a_time(g, first);
        assert forall|i: int| 0 <= i < outcomes.len() - 1 implies #[trigger] outcomes[i] by {
            if i < first.len() - 1 {
                assert(first[i]);
            } else {
                assert(first.last() == outcomes[i]);
            }
        }
    }
}

/// A generator that is told a number starts with nothing and wants that many
/// GiB.
pub proof fn law_generators_are_told_how_much(n: u64)
    ensures
        Generator::asked_for(decimal_of(n as nat)) == Some(
            Generator { gb: n, held: 0, exhausted: false },
        ),
{
    lemma_decimal_reads_back(n as nat);
}

/// A chunk is a GiB, and its pages are walked without a gap.
pub proof fn law_chunks_are_whole_gibs(k: int)
    ensures
        CHUNK == 1024 * 1024 * 1024,
        offsets(0, CHUNK as int, PAGE as int).len() * PAGE == CHUNK,
        0 <= k < offsets(0, CHUNK as int, PAGE as int).len() ==> offsets(
            0,
            CHUNK as int,
            PAGE as int,
        )[k] == k * PAGE,
{
    law_walk_visits_every_stride(0, CHUNK as int, PAGE as int);
}

/// No two pages of a chunk are dirtied with the same word, and none with zero.
pub proof fn law_dirt_is_distinct(a: u64, b: u64)
    ensures
        dirt_of(a) == dirt_of(b) ==> a == b,
        dirt_of(a) > 0,
        dirt_of(a) - dirt_of(b) == a - b,
{
}

/// Where the first of several equal words stands.
pub open spec fn first_place(args: Seq<Seq<char>>, word: Seq<char>, i: int) -> bool {
    &&& 0 <= i < args.len()
    &&& args[i] == word
    &&& forall|j: int| 0 <= j < i ==> #[trigger] args[j] != word
}

/// The pressure that a command line asks for is the number behind the first
/// `--pressure-gb`. Where there is no such word, or nothing behind it, it is
/// forty-eight; what stands there must be a number.
pub proof fn law_pressure_stands_behind_the_first_flag(args: Seq<Seq<char>>, i: int)
    ensures
        first_place(args, "--pressure-gb"@, i) ==> asked_pressure(args) == if i + 1 < args.len() {
            u64_value(args[i + 1])
        } else {
            Some(48u64)
        },
        !args.contains("--pressure-gb"@) ==> asked_pressure(args) == Some(48u64),
    decreases args.len(),
{
    if args.len() > 0 {
        let rest = args.drop_first();
        law_pressure_stands_behind_the_first_flag(rest, i - 1);
        if first_place(args, "--pressure-gb"@, i) && i > 0 {
            assert(args[0] != "--pressure-gb"@);
            assert(rest[i - 1] == args[i]);
            assert forall|j: int| 0 <= j < i - 1 implies #[trigger] rest[j] != "--pressure-gb"@ by {
                assert(args[j + 1] != "--pressure-gb"@);
            }
            assert(first_place(rest, "--pressure-gb"@, i - 1));
        }
        if !args.contains("--pressure-gb"@) {
            assert(args[0] != "--pressure-gb"@);
            assert forall|j: int| 0 <= j < rest.len() implies rest[j] != "--pressure-gb"@ by {
                assert(args[j + 1] != "--pressure-gb"@);
            }
        }
    }
}

}
