//! The order of the flags on a command line does not matter.

use crate::options::{
    default_options, flag_of, parsed, scanned, switched_on, takes_number, with_number, Advice,
    Flag, Options, ReclaimMode,
};
use crate::text::u64_value;
use vstd::prelude::*;

verus! {

/// A flag as it is written, with the value that follows it where it takes one.
pub struct FlagGroup {
    pub text: Seq<char>,
    pub value: Seq<char>,
}

/// Whether a flag takes a value.
pub open spec fn takes_value(f: Flag) -> bool {
    f == Flag::Advice || f == Flag::ReclaimMode || takes_number(f)
}

impl FlagGroup {
    /// The text is a flag.
    pub open spec fn wf(self) -> bool {
        flag_of(self.text) is Some
    }

    pub open spec fn flag(self) -> Flag {
        flag_of(self.text)->0
    }

    /// The arguments the group stands for.
    pub open spec fn args(self) -> Seq<Seq<char>> {
        if takes_value(self.flag()) {
            seq![self.text, self.value]
        } else {
            seq![self.text]
        }
    }

    /// Whether the value is one the flag accepts.
    spec fn accepted(self) -> bool {
        let f = self.flag();
        if f == Flag::Advice {
            Advice::selected_by(self.value) is Some
        } else if f == Flag::ReclaimMode {
            ReclaimMode::selected_by(self.value) is Some
        } else if takes_number(f) {
            u64_value(self.value) is Some && !(u64_value(self.value) == Some(0u64) && (f
                == Flag::Repeat || f == Flag::Vcpus))
        } else {
            true
        }
    }

    /// What an accepted group makes of options.
    #[verifier::opaque]
    spec fn applied(self, o: Options) -> Options {
        let f = self.flag();
        if f == Flag::Advice {
            Options { advice: Advice::selected_by(self.value)->0, ..o }
        } else if f == Flag::ReclaimMode {
            Options { reclaim_mode: ReclaimMode::selected_by(self.value)->0, ..o }
        } else if takes_number(f) {
            with_number(o, f, u64_value(self.value)->0)
        } else {
            switched_on(o, f)
        }
    }
}

/// The arguments that groups stand for, one after the other.
pub open spec fn args_of(groups: Seq<FlagGroup>) -> Seq<Seq<char>>
    decreases groups.len(),
{
    if groups.len() == 0 {
        Seq::empty()
    } else {
        groups[0].args() + args_of(groups.drop_first())
    }
}

/// Whether no flag occurs twice.
pub open spec fn no_flag_twice(groups: Seq<FlagGroup>) -> bool {
    forall|i: int, j: int|
        0 <= i < j < groups.len() ==> #[trigger] groups[i].flag() != #[trigger] groups[j].flag()
}

/// Whether every group starts with a flag.
pub open spec fn all_flags(groups: Seq<FlagGroup>) -> bool {
    forall|i: int| 0 <= i < groups.len() ==> (#[trigger] groups[i]).wf()
}

spec fn all_accepted(groups: Seq<FlagGroup>) -> bool {
    forall|i: int| 0 <= i < groups.len() ==> (#[trigger] groups[i]).accepted()
}

spec fn all_applied(groups: Seq<FlagGroup>, o: Options) -> Options
    decreases groups.len(),
{
    if groups.len() == 0 {
        o
    } else {
        all_applied(groups.drop_first(), groups[0].applied(o))
    }
}

spec fn pick<T>(set: bool, new: T, old_value: T) -> T {
    if set {
        new
    } else {
        old_value
    }
}

/// Options with what flag `f` stands for set: field by field, the one that is
/// the flag's own changes.
spec fn field_set(o: Options, f: Flag, a: Advice, m: ReclaimMode, n: u64) -> Options {
    Options {
        advice: pick(f == Flag::Advice, a, o.advice),
        size_gb: pick(f == Flag::SizeGb, n, o.size_gb),
        naive: o.naive || f == Flag::Naive,
        host_touch: o.host_touch || f == Flag::HostTouch,
        guest_read: o.guest_read || f == Flag::GuestRead,
        pressure_check: o.pressure_check || f == Flag::PressureCheck,
        hammer: o.hammer || f == Flag::Hammer,
        pressure_gb: pick(f == Flag::PressureGb, n, o.pressure_gb),
        repeat: pick(f == Flag::Repeat, n, o.repeat),
        time_reclaim: o.time_reclaim || f == Flag::TimeReclaim,
        extent_kb: pick(f == Flag::ExtentKb, n, o.extent_kb),
        reclaim_mode: pick(f == Flag::ReclaimMode, m, o.reclaim_mode),
        steady_state: o.steady_state || f == Flag::SteadyState,
        fleet_sim: o.fleet_sim || f == Flag::FleetSim,
        services: pick(f == Flag::Services, n, o.services),
        service_mib: pick(f == Flag::ServiceMib, n, o.service_mib),
        soak: o.soak || f == Flag::Soak,
        soak_minutes: pick(f == Flag::SoakMinutes, n, o.soak_minutes),
        vcpus: pick(f == Flag::Vcpus, n, o.vcpus),
    }
}

proof fn lemma_switch_sets_its_field(o: Options, f: Flag, a: Advice, m: ReclaimMode, n: u64)
    requires
        !takes_value(f),
    ensures
        switched_on(o, f) == field_set(o, f, a, m, n),
{
}

proof fn lemma_number_sets_its_field(o: Options, f: Flag, a: Advice, m: ReclaimMode, n: u64)
    requires
        takes_number(f),
    ensures
        with_number(o, f, n) == field_set(o, f, a, m, n),
{
}

proof fn lemma_group_sets_its_field(o: Options, g: FlagGroup)
    ensures
        g.applied(o) == field_set(
            o,
            g.flag(),
            Advice::selected_by(g.value)->0,
            ReclaimMode::selected_by(g.value)->0,
            u64_value(g.value)->0,
        ),
{
    let f = g.flag();
    let a = Advice::selected_by(g.value)->0;
    let m = ReclaimMode::selected_by(g.value)->0;
    let n = u64_value(g.value)->0;
    reveal(FlagGroup::applied);
    if f == Flag::Advice || f == Flag::ReclaimMode {
    } else if takes_number(f) {
        lemma_number_sets_its_field(o, f, a, m, n);
    } else {
        lemma_switch_sets_its_field(o, f, a, m, n);
    }
}

proof fn lemma_fields_commute(
    o: Options,
    f: Flag,
    a: Advice,
    m: ReclaimMode,
    n: u64,
    g: Flag,
    b: Advice,
    k: ReclaimMode,
    l: u64,
)
    requires
        f != g,
    ensures
        field_set(field_set(o, f, a, m, n), g, b, k, l) == field_set(
            field_set(o, g, b, k, l),
            f,
            a,
            m,
            n,
        ),
{
    let x = field_set(field_set(o, f, a, m, n), g, b, k, l);
    let y = field_set(field_set(o, g, b, k, l), f, a, m, n);
    assert(x.advice == y.advice);
    assert(x.size_gb == y.size_gb);
    assert(x.naive == y.naive);
    assert(x.host_touch == y.host_touch);
    assert(x.guest_read == y.guest_read);
    assert(x.pressure_check == y.pressure_check);
    assert(x.hammer == y.hammer);
    assert(x.pressure_gb == y.pressure_gb);
    assert(x.repeat == y.repeat);
    assert(x.time_reclaim == y.time_reclaim);
    assert(x.extent_kb == y.extent_kb);
    assert(x.reclaim_mode == y.reclaim_mode);
    assert(x.steady_state == y.steady_state);
    assert(x.fleet_sim == y.fleet_sim);
    assert(x.services == y.services);
    assert(x.service_mib == y.service_mib);
    assert(x.soak == y.soak);
    assert(x.soak_minutes == y.soak_minutes);
    assert(x.vcpus == y.vcpus);
}

/// Groups of different flags can change places.
proof fn lemma_groups_commute(o: Options, a: FlagGroup, b: FlagGroup)
    requires
        a.flag() != b.flag(),
    ensures
        b.applied(a.applied(o)) == a.applied(b.applied(o)),
{
    lemma_group_sets_its_field(o, a);
    lemma_group_sets_its_field(o, b);
    lemma_group_sets_its_field(a.applied(o), b);
    lemma_group_sets_its_field(b.applied(o), a);
    lemma_fields_commute(
        o,
        a.flag(),
        Advice::selected_by(a.value)->0,
        ReclaimMode::selected_by(a.value)->0,
        u64_value(a.value)->0,
        b.flag(),
        Advice::selected_by(b.value)->0,
        ReclaimMode::selected_by(b.value)->0,
        u64_value(b.value)->0,
    );
}

/// A group can be applied first instead of in its place.
proof fn lemma_to_the_front(groups: Seq<FlagGroup>, i: int, o: Options)
    requires
        0 <= i < groups.len(),
        no_flag_twice(groups),
    ensures
        all_applied(groups, o) == all_applied(groups.remove(i), groups[i].applied(o)),
    decreases groups.len(),
{
    let rest = groups.drop_first();
    if i == 0 {
        assert(groups.remove(0) =~= rest);
    } else {
        assert forall|p: int, q: int| 0 <= p < q < rest.len() implies #[trigger] rest[p].flag()
            != #[trigger] rest[q].flag() by {
            assert(groups[p + 1].flag() != groups[q + 1].flag());
        }
        lemma_to_the_front(rest, i - 1, groups[0].applied(o));
        assert(groups[0].flag() != groups[i].flag());
        lemma_groups_commute(o, groups[0], groups[i]);
        assert(groups.remove(i).drop_first() =~= rest.remove(i - 1));
    }
}

/// Reading groups is applying them, if every one is accepted.
proof fn lemma_groups_scanned(before: Seq<Seq<char>>, groups: Seq<FlagGroup>, o: Options)
    requires
        all_flags(groups),
    ensures
        ({
            let r = scanned(before + args_of(groups), before.len() as int, o);
            if all_accepted(groups) {
                r is Ok && r->Ok_0 == all_applied(groups, o)
            } else {
                r is Err
            }
        }),
    decreases groups.len(),
{
    let args = before + args_of(groups);
    let at = before.len() as int;
    if groups.len() == 0 {
        assert(args.len() == at);
    } else {
        let g = groups[0];
        let rest = groups.drop_first();
        assert(g.wf());
        assert forall|i: int| 0 <= i < rest.len() implies (#[trigger] rest[i]).wf() by {
            assert(groups[i + 1].wf());
        }
        let next = before + g.args();
        reveal(FlagGroup::applied);
        lemma_groups_scanned(next, rest, g.applied(o));
        assert(next + args_of(rest) =~= args);
        assert(args[at] == g.text);
        if takes_value(g.flag()) {
            assert(args[at + 1] == g.value);
        }
        if all_accepted(groups) {
            assert forall|i: int| 0 <= i < rest.len() implies (#[trigger] rest[i]).accepted() by {
                assert(groups[i + 1].accepted());
            }
        } else if g.accepted() {
            let i = choose|i: int| 0 <= i < groups.len() && !(#[trigger] groups[i]).accepted();
            assert(!rest[i - 1].accepted());
        }
    }
}

/// Applying a permutation comes to the same.
proof fn lemma_permuted(a: Seq<FlagGroup>, b: Seq<FlagGroup>, o: Options)
    requires
        no_flag_twice(a),
        no_flag_twice(b),
        a.to_multiset() == b.to_multiset(),
    ensures
        all_applied(a, o) == all_applied(b, o),
    decreases a.len(),
{
    a.to_multiset_ensures();
    b.to_multiset_ensures();
    if a.len() > 0 {
        let g = a[0];
        assert(a.contains(g));
        assert(b.to_multiset().count(g) > 0);
        let j = choose|j: int| 0 <= j < b.len() && b[j] == g;
        lemma_to_the_front(a, 0, o);
        lemma_to_the_front(b, j, o);
        let a1 = a.remove(0);
        let b1 = b.remove(j);
        assert forall|p: int, q: int| 0 <= p < q < a1.len() implies #[trigger] a1[p].flag()
            != #[trigger] a1[q].flag() by {
            assert(a[p + 1].flag() != a[q + 1].flag());
        }
        assert forall|p: int, q: int| 0 <= p < q < b1.len() implies #[trigger] b1[p].flag()
            != #[trigger] b1[q].flag() by {
            let x = if p < j {
                p
            } else {
                p + 1
            };
            let y = if q < j {
                q
            } else {
                q + 1
            };
            assert(b[x].flag() != b[y].flag());
        }
        lemma_permuted(a1, b1, g.applied(o));
    } else {
        assert(b.len() == 0);
    }
}

/// A permutation of groups whose flags are all different has flags that are
/// all different.
proof fn lemma_permutation_keeps_flags_apart(a: Seq<FlagGroup>, b: Seq<FlagGroup>)
    requires
        no_flag_twice(a),
        a.to_multiset() == b.to_multiset(),
    ensures
        no_flag_twice(b),
{
    a.to_multiset_ensures();
    b.to_multiset_ensures();
    assert(a.no_duplicates()) by {
        assert forall|i: int, j: int| 0 <= i < a.len() && 0 <= j < a.len() && i != j implies a[i]
            != a[j] by {
            if i < j {
                assert(a[i].flag() != a[j].flag());
            } else {
                assert(a[j].flag() != a[i].flag());
            }
        }
    }
    a.lemma_multiset_has_no_duplicates();
    b.lemma_multiset_has_no_duplicates_conv();
    assert forall|i: int, j: int| 0 <= i < j < b.len() implies #[trigger] b[i].flag()
        != #[trigger] b[j].flag() by {
        assert(b.contains(b[i]) && b.contains(b[j]));
        assert(a.to_multiset().count(b[i]) > 0 && a.to_multiset().count(b[j]) > 0);
        let p = choose|p: int| 0 <= p < a.len() && a[p] == b[i];
        let q = choose|q: int| 0 <= q < a.len() && a[q] == b[j];
        assert(b[i] != b[j]);
        if p < q {
            assert(a[p].flag() != a[q].flag());
        } else {
            assert(a[q].flag() != a[p].flag());
        }
    }
}

proof fn lemma_permutation_keeps(a: Seq<FlagGroup>, b: Seq<FlagGroup>)
    requires
        a.to_multiset() == b.to_multiset(),
    ensures
        all_flags(a) ==> all_flags(b),
        all_accepted(a) ==> all_accepted(b),
{
    a.to_multiset_ensures();
    b.to_multiset_ensures();
    assert forall|i: int| 0 <= i < b.len() implies exists|p: int|
        0 <= p < a.len() && #[trigger] a[p] == #[trigger] b[i] by {
        assert(b.contains(b[i]));
        assert(a.to_multiset().count(b[i]) > 0);
    }
}

/// Flags can be given in any order: a command line made of flag groups in
/// which no flag occurs twice, and any permutation of the groups, are either
/// both refused or stand for the same options.
pub proof fn law_flag_order_does_not_matter(a: Seq<FlagGroup>, b: Seq<FlagGroup>)
    requires
        all_flags(a),
        no_flag_twice(a),
        a.to_multiset() == b.to_multiset(),
    ensures
        parsed(args_of(a)) is Ok <==> parsed(args_of(b)) is Ok,
        parsed(args_of(a)) is Ok ==> parsed(args_of(a))->Ok_0 == parsed(args_of(b))->Ok_0,
{
    let none = Seq::<Seq<char>>::empty();
    let o = default_options();
    lemma_permutation_keeps_flags_apart(a, b);
    lemma_permutation_keeps(a, b);
    lemma_permutation_keeps(b, a);
    lemma_groups_scanned(none, a, o);
    lemma_groups_scanned(none, b, o);
    assert(none + args_of(a) =~= args_of(a));
    assert(none + args_of(b) =~= args_of(b));
    lemma_permuted(a, b, o);
}

}
