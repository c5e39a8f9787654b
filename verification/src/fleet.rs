//! The workload-shaped run: services start one by one, are held, and stop one
//! by one, while the footprint is traced.

use crate::guest::RAM_GPA;
use crate::harness::HarnessCommand;
use crate::options::{mib_bytes, shifted, Advice, Options, ReclaimMode};
use crate::reclaim::{
    law_reclaim_releases_the_range_and_restores_the_mapping, range_set, reclaim_ops, reclaim_range,
    Host, HostOp, HostRun,
};
use crate::text::{decimal, decimal_of, joined, lemma_decimal_reads_back};
use vstd::prelude::*;

verus! {

pub const IDLE_SECS: u64 = 10;

pub const STAGGER_SECS: u64 = 2;

pub const FLEET_HOLD_SECS: u64 = 30;

pub const TAIL_SECS: u64 = 30;

pub const BALLOON_WATCH_SECS: u64 = 30;

/// The events the trace marks. Services are counted from one.
#[derive(Clone, Copy, PartialEq, Eq, Structural, Debug)]
pub enum Event {
    Boot,
    Started { number: u64 },
    Hold,
    Stopped { number: u64 },
    Tail,
    Balloon,
    End,
}

impl Event {
    pub open spec fn name_of(self) -> Seq<char> {
        match self {
            Event::Boot => "boot"@,
            Event::Started { number } => "service-start-"@ + decimal_of(number as nat),
            Event::Hold => "hold"@,
            Event::Stopped { number } => "service-stop-"@ + decimal_of(number as nat),
            Event::Tail => "tail"@,
            Event::Balloon => "balloon"@,
            Event::End => "end"@,
        }
    }

    pub fn name(&self) -> (r: String)
        ensures
            r@ == self.name_of(),
    {
        match *self {
            Event::Boot => "boot".to_owned(),
            Event::Started { number } => joined("service-start-", decimal(number).as_str()),
            Event::Hold => "hold".to_owned(),
            Event::Stopped { number } => joined("service-stop-", decimal(number).as_str()),
            Event::Tail => "tail".to_owned(),
            Event::Balloon => "balloon".to_owned(),
            Event::End => "end".to_owned(),
        }
    }
}

/// One step of a fleet run. Services are counted from zero.
#[derive(Clone, Copy, PartialEq, Eq, Structural, Debug)]
pub enum FleetStep {
    Mark { event: Event },
    Sleep { secs: u64 },
    Start { service: u64 },
    Stop { service: u64 },
    /// Inflate the balloon over the freed memory.
    Balloon,
    /// Shut the guest down.
    Quit,
}

/// The steps that start the services from `i` on.
pub open spec fn ups(i: u64, services: u64) -> Seq<FleetStep>
    decreases services - i,
{
    if i < services {
        seq![
            FleetStep::Start { service: i },
            FleetStep::Mark { event: Event::Started { number: (i + 1) as u64 } },
            FleetStep::Sleep { secs: STAGGER_SECS },
        ] + ups((i + 1) as u64, services)
    } else {
        Seq::empty()
    }
}

/// The steps that stop the services from `i` on.
pub open spec fn downs(i: u64, services: u64) -> Seq<FleetStep>
    decreases services - i,
{
    if i < services {
        seq![
            FleetStep::Stop { service: i },
            FleetStep::Mark { event: Event::Stopped { number: (i + 1) as u64 } },
            FleetStep::Sleep { secs: STAGGER_SECS },
        ] + downs((i + 1) as u64, services)
    } else {
        Seq::empty()
    }
}

/// The end of a run: a Linux guest has a balloon, and is shut down.
pub open spec fn ending(linux: bool) -> Seq<FleetStep> {
    if linux {
        seq![
            FleetStep::Balloon,
            FleetStep::Mark { event: Event::Balloon },
            FleetStep::Sleep { secs: BALLOON_WATCH_SECS },
            FleetStep::Mark { event: Event::End },
            FleetStep::Quit,
        ]
    } else {
        seq![FleetStep::Mark { event: Event::End }]
    }
}

pub open spec fn winding_down(services: u64, linux: bool) -> Seq<FleetStep> {
    downs(0, services) + (seq![
        FleetStep::Mark { event: Event::Tail },
        FleetStep::Sleep { secs: TAIL_SECS },
    ] + ending(linux))
}

pub open spec fn holding(services: u64, linux: bool) -> Seq<FleetStep> {
    seq![FleetStep::Mark { event: Event::Hold }, FleetStep::Sleep { secs: FLEET_HOLD_SECS }]
        + winding_down(services, linux)
}

/// The whole run, on a Linux guest or on guest RAM of this process.
pub open spec fn schedule(services: u64, linux: bool) -> Seq<FleetStep> {
    seq![FleetStep::Mark { event: Event::Boot }, FleetStep::Sleep { secs: IDLE_SECS }] + (ups(
        0,
        services,
    ) + holding(services, linux))
}

enum Stage {
    Boot,
    Idle,
    Start { i: u64 },
    Started { i: u64 },
    Rising { i: u64 },
    Hold,
    Holding,
    Stop { i: u64 },
    Stopped { i: u64 },
    Falling { i: u64 },
    Tail,
    Tailing,
    Balloon,
    Ballooned,
    Watching,
    End,
    Quit,
    Finished,
}

/// A fleet run under way.
pub struct FleetRun {
    services: u64,
    linux: bool,
    stage: Stage,
}

impl FleetRun {
    /// The steps still to come.
    pub closed spec fn remaining(self) -> Seq<FleetStep> {
        let n = self.services;
        let b = self.linux;
        match self.stage {
            Stage::Boot => schedule(n, b),
            Stage::Idle => seq![FleetStep::Sleep { secs: IDLE_SECS }] + (ups(0, n) + holding(n, b)),
            Stage::Start { i } => ups(i, n) + holding(n, b),
            Stage::Started { i } => seq![
                FleetStep::Mark { event: Event::Started { number: (i + 1) as u64 } },
                FleetStep::Sleep { secs: STAGGER_SECS },
            ] + (ups((i + 1) as u64, n) + holding(n, b)),
            Stage::Rising { i } => seq![FleetStep::Sleep { secs: STAGGER_SECS }] + (ups(
                (i + 1) as u64,
                n,
            ) + holding(n, b)),
            Stage::Hold => holding(n, b),
            Stage::Holding => seq![FleetStep::Sleep { secs: FLEET_HOLD_SECS }] + winding_down(n, b),
            Stage::Stop { i } => downs(i, n) + Self::tail(b),
            Stage::Stopped { i } => seq![
                FleetStep::Mark { event: Event::Stopped { number: (i + 1) as u64 } },
                FleetStep::Sleep { secs: STAGGER_SECS },
            ] + (downs((i + 1) as u64, n) + Self::tail(b)),
            Stage::Falling { i } => seq![FleetStep::Sleep { secs: STAGGER_SECS }] + (downs(
                (i + 1) as u64,
                n,
            ) + Self::tail(b)),
            Stage::Tail => Self::tail(b),
            Stage::Tailing => seq![FleetStep::Sleep { secs: TAIL_SECS }] + ending(b),
            Stage::Balloon => ending(b),
            Stage::Ballooned => ending(true).skip(1),
            Stage::Watching => ending(true).skip(2),
            Stage::End => seq![FleetStep::Mark { event: Event::End }] + Self::goodbye(b),
            Stage::Quit => Self::goodbye(b),
            Stage::Finished => Seq::empty(),
        }
    }

    spec fn goodbye(linux: bool) -> Seq<FleetStep> {
        if linux {
            seq![FleetStep::Quit]
        } else {
            Seq::empty()
        }
    }

    spec fn tail(linux: bool) -> Seq<FleetStep> {
        seq![FleetStep::Mark { event: Event::Tail }, FleetStep::Sleep { secs: TAIL_SECS }] + ending(
            linux,
        )
    }

    /// The stages know which services they are about.
    pub closed spec fn wf(self) -> bool {
        match self.stage {
            Stage::Start { i }
            | Stage::Started { i }
            | Stage::Rising { i }
            | Stage::Stop { i }
            | Stage::Stopped { i }
            | Stage::Falling { i } => i < self.services,
            Stage::Balloon | Stage::Ballooned | Stage::Watching | Stage::Quit => self.linux,
            _ => true,
        }
    }

    /// A run about to start.
    pub fn new(services: u64, linux: bool) -> (r: FleetRun)
        ensures
            r.wf(),
            r.remaining() == schedule(services, linux),
    {
        FleetRun { services, linux, stage: Stage::Boot }
    }

    fn start_from(&self, i: u64) -> (r: Stage)
        ensures
            ({
                let next = FleetRun { stage: r, ..*self };
                &&& next.wf()
                &&& next.remaining() == ups(i, self.services) + holding(self.services, self.linux)
            }),
    {
        if i < self.services {
            Stage::Start { i }
        } else {
            assert(ups(i, self.services) + holding(self.services, self.linux) =~= holding(
                self.services,
                self.linux,
            ));
            Stage::Hold
        }
    }

    fn stop_from(&self, i: u64) -> (r: Stage)
        ensures
            ({
                let next = FleetRun { stage: r, ..*self };
                &&& next.wf()
                &&& next.remaining() == downs(i, self.services) + Self::tail(self.linux)
            }),
    {
        if i < self.services {
            Stage::Stop { i }
        } else {
            assert(downs(i, self.services) + Self::tail(self.linux) =~= Self::tail(self.linux));
            Stage::Tail
        }
    }

    fn ending_stage(&self) -> (r: Stage)
        ensures
            ({
                let next = FleetRun { stage: r, ..*self };
                &&& next.wf()
                &&& next.remaining() == ending(self.linux)
            }),
    {
        if self.linux {
            Stage::Balloon
        } else {
            assert(ending(false) =~= seq![FleetStep::Mark { event: Event::End }]);
            Stage::End
        }
    }

    /// The next step, if any is left.
    pub fn advance(&mut self) -> (r: Option<FleetStep>)
        requires
            old(self).wf(),
        ensures
            final(self).wf(),
            match r {
                Some(step) => old(self).remaining().len() > 0 && step == old(self).remaining()[0]
                    && final(self).remaining() == old(self).remaining().drop_first(),
                None => old(self).remaining().len() == 0 && final(self).remaining() == old(
                    self,
                ).remaining(),
            },
    {
        let (step, stage) = match self.stage {
            Stage::Boot => (FleetStep::Mark { event: Event::Boot }, Stage::Idle),
            Stage::Idle => (FleetStep::Sleep { secs: IDLE_SECS }, self.start_from(0)),
            Stage::Start { i } => (FleetStep::Start { service: i }, Stage::Started { i }),
            Stage::Started { i } => (
                FleetStep::Mark { event: Event::Started { number: i + 1 } },
                Stage::Rising { i },
            ),
            Stage::Rising { i } => (
                FleetStep::Sleep { secs: STAGGER_SECS },
                self.start_from(i + 1),
            ),
            Stage::Hold => (FleetStep::Mark { event: Event::Hold }, Stage::Holding),
            Stage::Holding => (FleetStep::Sleep { secs: FLEET_HOLD_SECS }, self.stop_from(0)),
            Stage::Stop { i } => (FleetStep::Stop { service: i }, Stage::Stopped { i }),
            Stage::Stopped { i } => (
                FleetStep::Mark { event: Event::Stopped { number: i + 1 } },
                Stage::Falling { i },
            ),
            Stage::Falling { i } => (
                FleetStep::Sleep { secs: STAGGER_SECS },
                self.stop_from(i + 1),
            ),
            Stage::Tail => (FleetStep::Mark { event: Event::Tail }, Stage::Tailing),
            Stage::Tailing => (FleetStep::Sleep { secs: TAIL_SECS }, self.ending_stage()),
            Stage::Balloon => (FleetStep::Balloon, Stage::Ballooned),
            Stage::Ballooned => (FleetStep::Mark { event: Event::Balloon }, Stage::Watching),
            Stage::Watching => (FleetStep::Sleep { secs: BALLOON_WATCH_SECS }, Stage::End),
            Stage::End => (
                FleetStep::Mark { event: Event::End },
                if self.linux {
                    Stage::Quit
                } else {
                    Stage::Finished
                },
            ),
            Stage::Quit => (FleetStep::Quit, Stage::Finished),
            Stage::Finished => {
                return None;
            },
        };
        self.stage = stage;
        assert(old(self).remaining() =~= seq![step] + self.remaining());
        assert(old(self).remaining().drop_first() =~= self.remaining());
        Some(step)
    }
}

/// The memory of a simulated fleet.
#[derive(Clone, Copy, PartialEq, Eq, Structural, Debug)]
pub struct FleetSimPlan {
    /// Bytes per service.
    pub region: u64,
    pub services: u64,
}

/// Whether the fleet the options ask for fits in guest RAM.
pub open spec fn fleet_fits(o: Options) -> bool {
    shifted(o.service_mib, 0x10_0000) * o.services <= o.ram_bytes()
}

pub open spec fn planned_fleet(o: Options) -> Option<FleetSimPlan> {
    if fleet_fits(o) {
        Some(
            FleetSimPlan {
                region: shifted(o.service_mib, 0x10_0000) as u64,
                services: o.services,
            },
        )
    } else {
        None
    }
}

/// Shares guest RAM out to the services, if the fleet fits.
pub fn plan(opts: &Options) -> (r: Option<FleetSimPlan>)
    ensures
        r == planned_fleet(*opts),
        r is Some ==> r->0.wf(opts.ram_bytes()),
{
    let region: u64 = mib_bytes(opts.service_mib);
    let ram_size: u64 = opts.ram_size();
    match region.checked_mul(opts.services) {
        Some(all) => if all <= ram_size {
            Some(FleetSimPlan { region, services: opts.services })
        } else {
            None
        },
        None => None,
    }
}

impl FleetSimPlan {
    /// The regions fit guest RAM of `ram_size` bytes.
    pub open spec fn wf(self, ram_size: int) -> bool {
        &&& self.region * self.services <= ram_size
        &&& ram_size <= u64::MAX
    }

    /// Where the region of service `i` starts and ends.
    pub open spec fn range_of(self, i: int) -> (int, int) {
        (i * self.region, (i + 1) * self.region)
    }

    /// Where the region of service `i` starts and ends, as offsets into guest
    /// RAM.
    pub fn range(&self, i: u64) -> (r: (u64, u64))
        requires
            i < self.services,
            self.region * self.services <= u64::MAX,
        ensures
            (r.0 as int, r.1 as int) == self.range_of(i as int),
    {
        assert(0 <= i * self.region <= (i + 1) * self.region <= self.region * self.services)
            by (nonlinear_arith)
            requires
                0 <= i < self.services,
                self.region >= 0,
        ;
        (i * self.region, (i + 1) * self.region)
    }

    pub open spec fn stopping(self, i: u64) -> Seq<HostOp> {
        reclaim_ops(
            self.range_of(i as int).0 as u64,
            self.region,
            ReclaimMode::Reusable,
            Advice::Reusable,
        )
    }

    /// Gives the region of service `i` back to the host.
    pub fn stop_ops(&self, i: u64) -> (r: HostRun)
        requires
            i < self.services,
            RAM_GPA + self.region * self.services <= u64::MAX,
        ensures
            r.wf(),
            r.remaining() == self.stopping(i),
    {
        let (from, to) = self.range(i);
        assert((i + 1) * self.region <= self.region * self.services) by (nonlinear_arith)
            requires
                i + 1 <= self.services,
                self.region >= 0,
        ;
        assert(from <= to) by (nonlinear_arith)
            requires
                from == i * self.region,
                to == (i + 1) * self.region,
                self.region >= 0,
        ;
        reclaim_range(from, self.region, ReclaimMode::Reusable, Advice::Reusable)
    }
}

/// Services do not share memory, and all lie inside guest RAM.
pub proof fn law_services_are_disjoint(p: FleetSimPlan, ram_size: int, i: int, j: int)
    requires
        p.wf(ram_size),
        0 <= i < j < p.services,
    ensures
        0 <= p.range_of(i).0 <= p.range_of(i).1 <= p.range_of(j).0,
        p.range_of(j).1 <= ram_size,
{
    assert(0 <= i * p.region <= (i + 1) * p.region <= j * p.region) by (nonlinear_arith)
        requires
            0 <= i < j,
            p.region >= 0,
    ;
    assert((j + 1) * p.region <= p.region * p.services) by (nonlinear_arith)
        requires
            j + 1 <= p.services,
            p.region >= 0,
    ;
}

/// How many steps of the run so far start a service, minus those that stop
/// one.
pub open spec fn alive(steps: Seq<FleetStep>) -> int
    decreases steps.len(),
{
    if steps.len() == 0 {
        0
    } else {
        alive(steps.drop_last()) + match steps.last() {
            FleetStep::Start { service: _ } => 1int,
            FleetStep::Stop { service: _ } => -1int,
            _ => 0int,
        }
    }
}

proof fn lemma_alive_add(a: Seq<FleetStep>, b: Seq<FleetStep>)
    ensures
        alive(a + b) == alive(a) + alive(b),
    decreases b.len(),
{
    if b.len() == 0 {
        assert(a + b =~= a);
    } else {
        lemma_alive_add(a, b.drop_last());
        assert((a + b).drop_last() =~= a + b.drop_last());
    }
}

proof fn lemma_alive_of_three(a: FleetStep, b: FleetStep, c: FleetStep)
    requires
        b is Mark,
        c is Sleep,
    ensures
        alive(seq![a, b, c]) == match a {
            FleetStep::Start { service: _ } => 1int,
            FleetStep::Stop { service: _ } => -1int,
            _ => 0int,
        },
{
    reveal_with_fuel(alive, 4);
    assert(seq![a, b, c].drop_last() =~= seq![a, b]);
    assert(seq![a, b].drop_last() =~= seq![a]);
    assert(seq![a].drop_last() =~= Seq::<FleetStep>::empty());
}

proof fn lemma_alive_rises(i: u64, services: u64)
    requires
        i <= services,
    ensures
        alive(ups(i, services)) == services - i,
        alive(downs(i, services)) == i - services,
    decreases services - i,
{
    if i < services {
        let next = (i + 1) as u64;
        lemma_alive_rises(next, services);
        let up = seq![
            FleetStep::Start { service: i },
            FleetStep::Mark { event: Event::Started { number: next } },
            FleetStep::Sleep { secs: STAGGER_SECS },
        ];
        let down = seq![
            FleetStep::Stop { service: i },
            FleetStep::Mark { event: Event::Stopped { number: next } },
            FleetStep::Sleep { secs: STAGGER_SECS },
        ];
        lemma_alive_of_three(up[0], up[1], up[2]);
        lemma_alive_of_three(down[0], down[1], down[2]);
        lemma_alive_add(up, ups(next, services));
        lemma_alive_add(down, downs(next, services));
    }
}

/// Every service is up when the hold begins, and none is left at the end.
pub proof fn law_fleet_comes_up_and_goes_down(services: u64, linux: bool)
    ensures
        ({
            let boot = seq![
                FleetStep::Mark { event: Event::Boot },
                FleetStep::Sleep { secs: IDLE_SECS },
            ];
            &&& alive(boot + ups(0, services)) == services
            &&& schedule(services, linux) == boot + ups(0, services) + holding(services, linux)
        }),
        alive(schedule(services, linux)) == 0,
{
    let boot = seq![FleetStep::Mark { event: Event::Boot }, FleetStep::Sleep { secs: IDLE_SECS }];
    let hold = seq![
        FleetStep::Mark { event: Event::Hold },
        FleetStep::Sleep { secs: FLEET_HOLD_SECS },
    ];
    let tail = seq![FleetStep::Mark { event: Event::Tail }, FleetStep::Sleep { secs: TAIL_SECS }];
    let all = schedule(services, linux);
    reveal_with_fuel(alive, 6);
    assert(boot.drop_last().drop_last() =~= Seq::<FleetStep>::empty());
    assert(hold.drop_last().drop_last() =~= Seq::<FleetStep>::empty());
    assert(tail.drop_last().drop_last() =~= Seq::<FleetStep>::empty());
    assert(alive(ending(linux)) == 0) by {
        let e = ending(linux);
        if linux {
            assert(e.drop_last().drop_last().drop_last().drop_last().drop_last() =~= Seq::<
                FleetStep,
            >::empty());
        } else {
            assert(e.drop_last() =~= Seq::<FleetStep>::empty());
        }
    }
    lemma_alive_rises(0, services);
    lemma_alive_add(boot, ups(0, services));
    lemma_alive_add(boot, ups(0, services) + holding(services, linux));
    lemma_alive_add(ups(0, services), holding(services, linux));
    lemma_alive_add(hold, winding_down(services, linux));
    lemma_alive_add(downs(0, services), tail + ending(linux));
    lemma_alive_add(tail, ending(linux));
    assert(all =~= boot + ups(0, services) + holding(services, linux));
}

/// The fleet of a Linux guest.
#[derive(Clone, Copy, PartialEq, Eq, Structural, Debug)]
pub struct FleetOptions {
    pub services: u64,
    pub service_mib: u64,
    pub guest_gb: u64,
}

impl FleetOptions {
    /// Guest memory without the fleet's, if it has that much.
    pub open spec fn target_mib(self) -> Option<u64> {
        if self.services * self.service_mib <= self.guest_gb * 1024 <= u64::MAX {
            Some((self.guest_gb * 1024 - self.services * self.service_mib) as u64)
        } else {
            None
        }
    }

    /// The command that performs a step: none where the host performs it
    /// alone, or where the balloon has no target.
    pub open spec fn command_of(self, step: FleetStep) -> Option<HarnessCommand> {
        match step {
            FleetStep::Start { service: _ } => Some(
                HarnessCommand::FleetStart { mib: self.service_mib },
            ),
            FleetStep::Stop { service: _ } => Some(HarnessCommand::FleetStopOne),
            FleetStep::Balloon => match self.target_mib() {
                Some(mib) => Some(HarnessCommand::Balloon { mib }),
                None => None,
            },
            FleetStep::Quit => Some(HarnessCommand::Quit),
            FleetStep::Mark { event: _ } | FleetStep::Sleep { secs: _ } => None,
        }
    }

    /// The command that performs a step, if one does.
    pub fn command(&self, step: &FleetStep) -> (r: Option<HarnessCommand>)
        ensures
            r == self.command_of(*step),
    {
        match *step {
            FleetStep::Start { service: _ } => Some(
                HarnessCommand::FleetStart { mib: self.service_mib },
            ),
            FleetStep::Stop { service: _ } => Some(HarnessCommand::FleetStopOne),
            FleetStep::Balloon => match self.balloon_target_mib() {
                Some(mib) => Some(HarnessCommand::Balloon { mib }),
                None => None,
            },
            FleetStep::Quit => Some(HarnessCommand::Quit),
            FleetStep::Mark { event: _ } | FleetStep::Sleep { secs: _ } => None,
        }
    }

    /// What the balloon leaves the guest: its memory without the fleet's, if
    /// it has that much.
    pub fn balloon_target_mib(&self) -> (r: Option<u64>)
        ensures
            r == self.target_mib(),
    {
        let fleet_mib = self.services.checked_mul(self.service_mib);
        let guest_mib = self.guest_gb.checked_mul(1024);
        match (fleet_mib, guest_mib) {
            (Some(fleet), Some(guest)) => if fleet <= guest {
                Some(guest - fleet)
            } else {
                None
            },
            _ => None,
        }
    }
}

/// The commands that the steps send to the harness.
pub open spec fn sent(o: FleetOptions, steps: Seq<FleetStep>) -> Seq<HarnessCommand>
    decreases steps.len(),
{
    if steps.len() == 0 {
        Seq::empty()
    } else {
        let before = sent(o, steps.drop_last());
        match o.command_of(steps.last()) {
            Some(command) => before.push(command),
            None => before,
        }
    }
}

/// The events that the steps mark.
pub open spec fn marked(steps: Seq<FleetStep>) -> Seq<Event>
    decreases steps.len(),
{
    if steps.len() == 0 {
        Seq::empty()
    } else {
        let before = marked(steps.drop_last());
        match steps.last() {
            FleetStep::Mark { event } => before.push(event),
            _ => before,
        }
    }
}

proof fn lemma_traces_add(o: FleetOptions, a: Seq<FleetStep>, b: Seq<FleetStep>)
    ensures
        sent(o, a + b) == sent(o, a) + sent(o, b),
        marked(a + b) == marked(a) + marked(b),
    decreases b.len(),
{
    if b.len() == 0 {
        assert(a + b =~= a);
        assert(sent(o, a) + sent(o, b) =~= sent(o, a));
        assert(marked(a) + marked(b) =~= marked(a));
    } else {
        lemma_traces_add(o, a, b.drop_last());
        assert((a + b).drop_last() =~= a + b.drop_last());
        assert(sent(o, a + b) =~= sent(o, a) + sent(o, b));
        assert(marked(a + b) =~= marked(a) + marked(b));
    }
}

proof fn lemma_traces_of_three(o: FleetOptions, a: FleetStep, event: Event, secs: u64)
    requires
        a is Start || a is Stop || a is Balloon,
        o.command_of(a) is Some,
    ensures
        sent(o, seq![a, FleetStep::Mark { event }, FleetStep::Sleep { secs }])
            == seq![o.command_of(a)->Some_0],
        marked(seq![a, FleetStep::Mark { event }, FleetStep::Sleep { secs }]) == seq![event],
{
    let three = seq![a, FleetStep::Mark { event }, FleetStep::Sleep { secs }];
    lemma_traces_of_two(o, a, event);
    assert(three.drop_last() =~= seq![a, FleetStep::Mark { event }]);
}

proof fn lemma_traces_of_two(o: FleetOptions, a: FleetStep, event: Event)
    requires
        a is Start || a is Stop || a is Balloon,
        o.command_of(a) is Some,
    ensures
        sent(o, seq![a, FleetStep::Mark { event }]) == seq![o.command_of(a)->Some_0],
        marked(seq![a, FleetStep::Mark { event }]) == seq![event],
{
    let two = seq![a, FleetStep::Mark { event }];
    assert(two.drop_last() =~= seq![a]);
    assert(seq![a].drop_last() =~= Seq::<FleetStep>::empty());
    reveal_with_fuel(sent, 3);
    reveal_with_fuel(marked, 3);
    assert(sent(o, two) =~= seq![o.command_of(a)->Some_0]);
    assert(marked(two) =~= seq![event]);
}

proof fn lemma_traces_of_a_pause(o: FleetOptions, event: Event, secs: u64)
    ensures
        sent(o, seq![FleetStep::Mark { event }, FleetStep::Sleep { secs }]) == Seq::<
            HarnessCommand,
        >::empty(),
        marked(seq![FleetStep::Mark { event }, FleetStep::Sleep { secs }]) == seq![event],
{
    let two = seq![FleetStep::Mark { event }, FleetStep::Sleep { secs }];
    let one = seq![FleetStep::Mark { event }];
    assert(two.drop_last() =~= one);
    assert(one.drop_last() =~= Seq::<FleetStep>::empty());
    reveal_with_fuel(sent, 3);
    reveal_with_fuel(marked, 3);
    assert(marked(two) =~= seq![event]);
}

/// The events of the services starting from `i` on.
pub open spec fn starts(i: int, services: int) -> Seq<Event> {
    Seq::new((services - i) as nat, |j: int| Event::Started { number: (i + j + 1) as u64 })
}

/// The events of the services stopping from `i` on.
pub open spec fn stops(i: int, services: int) -> Seq<Event> {
    Seq::new((services - i) as nat, |j: int| Event::Stopped { number: (i + j + 1) as u64 })
}

/// A command sent `n` times.
pub open spec fn times(command: HarnessCommand, n: int) -> Seq<HarnessCommand> {
    Seq::new(n as nat, |j: int| command)
}

proof fn lemma_traces_of_ups(o: FleetOptions, i: u64, services: u64)
    requires
        i <= services,
    ensures
        sent(o, ups(i, services)) == times(
            HarnessCommand::FleetStart { mib: o.service_mib },
            services - i,
        ),
        marked(ups(i, services)) == starts(i as int, services as int),
    decreases services - i,
{
    let command = HarnessCommand::FleetStart { mib: o.service_mib };
    if i < services {
        let next = (i + 1) as u64;
        let step = FleetStep::Start { service: i };
        let event = Event::Started { number: next };
        let first = seq![
            step,
            FleetStep::Mark { event },
            FleetStep::Sleep { secs: STAGGER_SECS },
        ];
        lemma_traces_of_ups(o, next, services);
        lemma_traces_of_three(o, step, event, STAGGER_SECS);
        lemma_traces_add(o, first, ups(next, services));
        assert(seq![command] + times(command, services - next) =~= times(command, services - i));
        assert(seq![event] + starts(next as int, services as int) =~= starts(
            i as int,
            services as int,
        ));
    } else {
        assert(sent(o, ups(i, services)) =~= times(command, 0));
        assert(marked(ups(i, services)) =~= starts(i as int, services as int));
    }
}

proof fn lemma_traces_of_downs(o: FleetOptions, i: u64, services: u64)
    requires
        i <= services,
    ensures
        sent(o, downs(i, services)) == times(HarnessCommand::FleetStopOne, services - i),
        marked(downs(i, services)) == stops(i as int, services as int),
    decreases services - i,
{
    let command = HarnessCommand::FleetStopOne;
    if i < services {
        let next = (i + 1) as u64;
        let step = FleetStep::Stop { service: i };
        let event = Event::Stopped { number: next };
        let first = seq![
            step,
            FleetStep::Mark { event },
            FleetStep::Sleep { secs: STAGGER_SECS },
        ];
        lemma_traces_of_downs(o, next, services);
        lemma_traces_of_three(o, step, event, STAGGER_SECS);
        lemma_traces_add(o, first, downs(next, services));
        assert(seq![command] + times(command, services - next) =~= times(command, services - i));
        assert(seq![event] + stops(next as int, services as int) =~= stops(
            i as int,
            services as int,
        ));
    } else {
        assert(sent(o, downs(i, services)) =~= times(command, 0));
        assert(marked(downs(i, services)) =~= stops(i as int, services as int));
    }
}

proof fn lemma_traces_of_the_end(o: FleetOptions)
    requires
        o.target_mib() is Some,
    ensures
        sent(o, ending(true)) == seq![
            HarnessCommand::Balloon { mib: o.target_mib()->Some_0 },
            HarnessCommand::Quit,
        ],
        marked(ending(true)) == seq![Event::Balloon, Event::End],
{
    let first = ending(true).take(3);
    let last = seq![FleetStep::Mark { event: Event::End }, FleetStep::Quit];
    assert(first =~= seq![
        FleetStep::Balloon,
        FleetStep::Mark { event: Event::Balloon },
        FleetStep::Sleep { secs: BALLOON_WATCH_SECS },
    ]);
    lemma_traces_of_three(o, FleetStep::Balloon, Event::Balloon, BALLOON_WATCH_SECS);
    assert(ending(true) =~= first + last);
    lemma_traces_add(o, first, last);
    assert(last.drop_last() =~= seq![FleetStep::Mark { event: Event::End }]);
    assert(last.drop_last().drop_last() =~= Seq::<FleetStep>::empty());
    reveal_with_fuel(sent, 3);
    reveal_with_fuel(marked, 3);
    assert(sent(o, last) =~= seq![HarnessCommand::Quit]);
    assert(marked(last) =~= seq![Event::End]);
    assert(sent(o, ending(true)) =~= seq![
        HarnessCommand::Balloon { mib: o.target_mib()->Some_0 },
        HarnessCommand::Quit,
    ]);
    assert(marked(ending(true)) =~= seq![Event::Balloon, Event::End]);
}

/// The commands and events of a run, part by part.
proof fn lemma_traces_of_the_run(o: FleetOptions, n: u64, linux: bool)
    ensures
        sent(o, schedule(n, linux)) == times(
            HarnessCommand::FleetStart { mib: o.service_mib },
            n as int,
        ) + times(HarnessCommand::FleetStopOne, n as int) + sent(o, ending(linux)),
        marked(schedule(n, linux)) == seq![Event::Boot] + starts(0, n as int) + seq![Event::Hold]
            + stops(0, n as int) + seq![Event::Tail] + marked(ending(linux)),
{
    let boot = seq![FleetStep::Mark { event: Event::Boot }, FleetStep::Sleep { secs: IDLE_SECS }];
    let hold = seq![
        FleetStep::Mark { event: Event::Hold },
        FleetStep::Sleep { secs: FLEET_HOLD_SECS },
    ];
    let tail = seq![FleetStep::Mark { event: Event::Tail }, FleetStep::Sleep { secs: TAIL_SECS }];
    lemma_traces_of_a_pause(o, Event::Boot, IDLE_SECS);
    lemma_traces_of_a_pause(o, Event::Hold, FLEET_HOLD_SECS);
    lemma_traces_of_a_pause(o, Event::Tail, TAIL_SECS);
    lemma_traces_of_ups(o, 0, n);
    lemma_traces_of_downs(o, 0, n);
    lemma_traces_add(o, boot, ups(0, n) + holding(n, linux));
    lemma_traces_add(o, ups(0, n), holding(n, linux));
    lemma_traces_add(o, hold, winding_down(n, linux));
    lemma_traces_add(o, downs(0, n), tail + ending(linux));
    lemma_traces_add(o, tail, ending(linux));
    assert(sent(o, schedule(n, linux)) =~= times(
        HarnessCommand::FleetStart { mib: o.service_mib },
        n as int,
    ) + times(HarnessCommand::FleetStopOne, n as int) + sent(o, ending(linux)));
    assert(marked(schedule(n, linux)) =~= seq![Event::Boot] + starts(0, n as int)
        + seq![Event::Hold] + stops(0, n as int) + seq![Event::Tail] + marked(ending(linux)));
}

/// A fleet run on a Linux guest sends a start for every service, then as many
/// stops, then the balloon's target, and quits last.
pub proof fn law_fleet_sends_its_commands(o: FleetOptions)
    requires
        o.target_mib() is Some,
    ensures
        sent(o, schedule(o.services, true)) == times(
            HarnessCommand::FleetStart { mib: o.service_mib },
            o.services as int,
        ) + times(HarnessCommand::FleetStopOne, o.services as int) + seq![
            HarnessCommand::Balloon { mib: o.target_mib()->Some_0 },
            HarnessCommand::Quit,
        ],
{
    lemma_traces_of_the_run(o, o.services, true);
    lemma_traces_of_the_end(o);
}

/// A fleet run marks the boot, every start, the hold, every stop, the tail, the
/// balloon where there is one, and the end, in this order.
pub proof fn law_fleet_marks_its_events(services: u64, linux: bool)
    ensures
        marked(schedule(services, linux)) == seq![Event::Boot] + starts(0, services as int)
            + seq![Event::Hold] + stops(0, services as int) + seq![Event::Tail] + (if linux {
            seq![Event::Balloon, Event::End]
        } else {
            seq![Event::End]
        }),
{
    let o = FleetOptions { services: 0, service_mib: 0, guest_gb: 0 };
    lemma_traces_of_the_run(o, services, linux);
    lemma_traces_of_the_end(o);
    if !linux {
        assert(ending(false).drop_last() =~= Seq::<FleetStep>::empty());
        reveal_with_fuel(marked, 2);
        assert(marked(ending(false)) =~= seq![Event::End]);
    }
}

/// A fleet that fits has a region of `service_mib` MiB for every service, and
/// is refused only where the regions together are more than guest RAM.
pub proof fn law_fleets_are_planned_as_asked(o: Options)
    requires
        o.service_mib * (1024 * 1024) <= u64::MAX,
        o.size_gb * (1024 * 1024 * 1024) <= u64::MAX,
    ensures
        match planned_fleet(o) {
            Some(p) => p.services == o.services && p.region == o.service_mib * (1024 * 1024)
                && o.services * o.service_mib <= o.size_gb * 1024,
            None => o.services * o.service_mib > o.size_gb * 1024,
        },
{
    let all = o.service_mib * o.services;
    assert(o.services * o.service_mib == all) by (nonlinear_arith)
        requires
            all == o.service_mib * o.services,
    ;
    assert(o.service_mib * 0x10_0000 * o.services == all * 0x10_0000) by (nonlinear_arith)
        requires
            all == o.service_mib * o.services,
    ;
}

/// A region is as long as a service is large, and the regions follow each
/// other from the start of guest RAM.
pub proof fn law_regions_follow_each_other(p: FleetSimPlan, i: int)
    ensures
        p.range_of(0).0 == 0,
        p.range_of(i).1 - p.range_of(i).0 == p.region,
        p.range_of(i).1 == p.range_of(i + 1).0,
{
    assert((i + 1) * p.region == i * p.region + p.region) by (nonlinear_arith);
    assert(0 * p.region == 0);
}

/// Stopping a service gives exactly its region back, and leaves the guest
/// running on the mapping it had.
pub proof fn law_stopping_releases_the_region(p: FleetSimPlan, h: Host, ram_size: int, i: u64)
    requires
        h.mapped_through(ram_size),
        p.wf(ram_size),
        RAM_GPA + ram_size <= u64::MAX,
        i < p.services,
    ensures
        ({
            let e = h.after_all(p.stopping(i));
            &&& e.stage2 == h.stage2
            &&& e.released == h.released.union(range_set(i * p.region, p.region as int))
            &&& e.trapped == h.trapped
            &&& e.mapped_through(ram_size)
        }),
{
    let from = i * p.region;
    assert(0 <= from && from + p.region <= p.region * p.services) by (nonlinear_arith)
        requires
            from == i * p.region,
            0 <= i < p.services,
            p.region >= 0,
    ;
    law_reclaim_releases_the_range_and_restores_the_mapping(
        h,
        ram_size,
        from as u64,
        p.region,
        ReclaimMode::Reusable,
        Advice::Reusable,
    );
}

/// What the balloon leaves the guest and what the fleet had are the guest's
/// memory. There is no target exactly where the fleet is larger than that, or
/// the memory is no number of MiB in sixty-four bits.
pub proof fn law_the_balloon_takes_what_the_fleet_had(o: FleetOptions)
    ensures
        match o.target_mib() {
            Some(mib) => mib + o.services * o.service_mib == o.guest_gb * 1024,
            None => o.services * o.service_mib > o.guest_gb * 1024 || o.guest_gb * 1024 > u64::MAX,
        },
{
}

/// The seconds that the steps sleep.
pub open spec fn slept(steps: Seq<FleetStep>) -> int
    decreases steps.len(),
{
    if steps.len() == 0 {
        0
    } else {
        slept(steps.drop_last()) + match steps.last() {
            FleetStep::Sleep { secs } => secs as int,
            _ => 0,
        }
    }
}

proof fn lemma_slept_add(a: Seq<FleetStep>, b: Seq<FleetStep>)
    ensures
        slept(a + b) == slept(a) + slept(b),
    decreases b.len(),
{
    if b.len() == 0 {
        assert(a + b =~= a);
    } else {
        lemma_slept_add(a, b.drop_last());
        assert((a + b).drop_last() =~= a + b.drop_last());
    }
}

proof fn lemma_slept_one(a: FleetStep)
    ensures
        slept(seq![a]) == match a {
            FleetStep::Sleep { secs } => secs as int,
            _ => 0,
        },
{
    reveal_with_fuel(slept, 2);
    assert(seq![a].drop_last() =~= Seq::<FleetStep>::empty());
}

proof fn lemma_slept_pause(a: FleetStep, secs: u64)
    requires
        a is Mark,
    ensures
        slept(seq![a, FleetStep::Sleep { secs }]) == secs,
{
    let b = FleetStep::Sleep { secs };
    lemma_slept_one(a);
    assert(seq![a, b].drop_last() =~= seq![a]);
}

proof fn lemma_slept_on_the_way(i: u64, services: u64)
    requires
        i <= services,
    ensures
        slept(ups(i, services)) == 2 * (services - i),
        slept(downs(i, services)) == 2 * (services - i),
    decreases services - i,
{
    if i < services {
        let next = (i + 1) as u64;
        lemma_slept_on_the_way(next, services);
        let up = FleetStep::Start { service: i };
        let down = FleetStep::Stop { service: i };
        let rose = FleetStep::Mark { event: Event::Started { number: next } };
        let fell = FleetStep::Mark { event: Event::Stopped { number: next } };
        let rest = FleetStep::Sleep { secs: STAGGER_SECS };
        lemma_slept_one(up);
        lemma_slept_one(down);
        lemma_slept_pause(rose, STAGGER_SECS);
        lemma_slept_pause(fell, STAGGER_SECS);
        lemma_slept_add(seq![up], seq![rose, rest]);
        lemma_slept_add(seq![down], seq![fell, rest]);
        assert(seq![up] + seq![rose, rest] =~= seq![up, rose, rest]);
        assert(seq![down] + seq![fell, rest] =~= seq![down, fell, rest]);
        lemma_slept_add(seq![up, rose, rest], ups(next, services));
        lemma_slept_add(seq![down, fell, rest], downs(next, services));
    }
}

/// A fleet run takes ten seconds before the first service starts, two after
/// each start and after each stop, half a minute with all of them up, half a
/// minute after the last is gone, and half a minute more over the balloon of a
/// Linux guest.
pub proof fn law_fleets_take_their_time(services: u64, linux: bool)
    ensures
        slept(schedule(services, linux)) == 10 + 2 * services + 30 + 2 * services + 30 + if linux {
            30int
        } else {
            0
        },
{
    let boot = FleetStep::Mark { event: Event::Boot };
    let hold = FleetStep::Mark { event: Event::Hold };
    let tail = FleetStep::Mark { event: Event::Tail };
    let last = FleetStep::Mark { event: Event::End };
    lemma_slept_pause(boot, IDLE_SECS);
    lemma_slept_pause(hold, FLEET_HOLD_SECS);
    lemma_slept_pause(tail, TAIL_SECS);
    lemma_slept_on_the_way(0, services);
    let tailing = seq![tail, FleetStep::Sleep { secs: TAIL_SECS }];
    lemma_slept_add(
        seq![boot, FleetStep::Sleep { secs: IDLE_SECS }],
        ups(0, services) + holding(services, linux),
    );
    lemma_slept_add(ups(0, services), holding(services, linux));
    lemma_slept_add(
        seq![hold, FleetStep::Sleep { secs: FLEET_HOLD_SECS }],
        winding_down(services, linux),
    );
    lemma_slept_add(downs(0, services), tailing + ending(linux));
    lemma_slept_add(tailing, ending(linux));
    lemma_slept_one(last);
    if linux {
        let swell = FleetStep::Mark { event: Event::Balloon };
        let rest = FleetStep::Sleep { secs: BALLOON_WATCH_SECS };
        lemma_slept_one(FleetStep::Balloon);
        lemma_slept_one(FleetStep::Quit);
        lemma_slept_pause(swell, BALLOON_WATCH_SECS);
        lemma_slept_add(seq![FleetStep::Balloon], seq![swell, rest]);
        lemma_slept_add(seq![last], seq![FleetStep::Quit]);
        lemma_slept_add(
            seq![FleetStep::Balloon] + seq![swell, rest],
            seq![last] + seq![FleetStep::Quit],
        );
        assert(ending(true) =~= seq![FleetStep::Balloon] + seq![swell, rest] + (seq![last]
            + seq![FleetStep::Quit]));
    }
}

proof fn lemma_places(i: u64, services: u64, j: int)
    requires
        i <= services,
    ensures
        ups(i, services).len() == 3 * (services - i),
        downs(i, services).len() == 3 * (services - i),
        i <= j < services ==> {
            let k = 3 * (j - i);
            &&& ups(i, services)[k] == (FleetStep::Start { service: j as u64 })
            &&& ups(i, services)[k + 1] == (FleetStep::Mark {
                event: Event::Started { number: (j + 1) as u64 },
            })
            &&& ups(i, services)[k + 2] is Sleep
            &&& downs(i, services)[k] == (FleetStep::Stop { service: j as u64 })
            &&& downs(i, services)[k + 1] == (FleetStep::Mark {
                event: Event::Stopped { number: (j + 1) as u64 },
            })
            &&& downs(i, services)[k + 2] is Sleep
        },
    decreases services - i,
{
    if i < services {
        lemma_places((i + 1) as u64, services, j);
    }
}

/// Services start one after the other from the first to the last, and stop in
/// the same order; the trace is marked right after each, with the number that
/// counts from one.
pub proof fn law_services_start_and_stop_in_turn(services: u64, linux: bool, i: u64)
    requires
        i < services,
    ensures
        ({
            let all = schedule(services, linux);
            let up = 2 + 3 * i;
            let down = 2 + 3 * services + 2 + 3 * i;
            &&& down + 2 < all.len()
            &&& all[up] == (FleetStep::Start { service: i })
            &&& all[up + 1] == (FleetStep::Mark {
                event: Event::Started { number: (i + 1) as u64 },
            })
            &&& all[up + 2] is Sleep
            &&& all[down] == (FleetStep::Stop { service: i })
            &&& all[down + 1] == (FleetStep::Mark {
                event: Event::Stopped { number: (i + 1) as u64 },
            })
            &&& all[down + 2] is Sleep
        }),
{
    lemma_places(0, services, i as int);
}

/// On a Linux guest the balloon comes when the tail is over, and nothing
/// follows the end but the goodbye; elsewhere the end is last.
pub proof fn law_the_end_of_a_fleet(services: u64, linux: bool)
    ensures
        ({
            let all = schedule(services, linux);
            let tail = 4 + 6 * services;
            &&& all[tail] == (FleetStep::Mark { event: Event::Tail })
            &&& all[tail + 1] is Sleep
            &&& linux ==> all.len() == tail + 7 && all[tail + 2] is Balloon && all[tail + 3] == (
            FleetStep::Mark { event: Event::Balloon }) && all[tail + 4] is Sleep && all[tail + 5]
                == (FleetStep::Mark { event: Event::End }) && all[tail + 6] is Quit
            &&& !linux ==> all.len() == tail + 3 && all[tail + 2] == (FleetStep::Mark {
                event: Event::End,
            })
        }),
{
    lemma_places(0, services, 0);
}

/// No two events share a name.
pub proof fn law_events_have_names_of_their_own(a: Event, b: Event)
    requires
        a.name_of() == b.name_of(),
    ensures
        a == b,
{
    reveal_strlit("boot");
    reveal_strlit("service-start-");
    reveal_strlit("hold");
    reveal_strlit("service-stop-");
    reveal_strlit("tail");
    reveal_strlit("balloon");
    reveal_strlit("end");
    let (p, q) = (a.name_of(), b.name_of());
    assert(p[0] == q[0] && p.len() == q.len());
    match (a, b) {
        (Event::Started { number: m }, Event::Started { number: n }) => {
            lemma_numbered("service-start-"@, m, n);
        },
        (Event::Stopped { number: m }, Event::Stopped { number: n }) => {
            lemma_numbered("service-stop-"@, m, n);
        },
        (Event::Started { .. }, Event::Stopped { .. }) => {
            assert(p[10] != q[10]);
        },
        (Event::Stopped { .. }, Event::Started { .. }) => {
            assert(p[10] != q[10]);
        },
        _ => {},
    }
}

proof fn lemma_numbered(word: Seq<char>, m: u64, n: u64)
    requires
        word + decimal_of(m as nat) == word + decimal_of(n as nat),
    ensures
        m == n,
{
    let (a, b) = (word + decimal_of(m as nat), word + decimal_of(n as nat));
    assert(a.skip(word.len() as int) =~= decimal_of(m as nat));
    assert(b.skip(word.len() as int) =~= decimal_of(n as nat));
    lemma_decimal_reads_back(m as nat);
    lemma_decimal_reads_back(n as nat);
}

}
