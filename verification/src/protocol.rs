//! What the host and the Linux guest promise each other: the guest
//! understands what the host sends, and the host what the guest answers.

use crate::guest_init::{
    answer_to, command_of, law_commands_were_written, word_number, Command, Reply,
};
use crate::harness::{HarnessCommand, Signal};
use crate::text::{
    decimal_of, digits_value, is_digit, is_digits, law_white_space_parts_words,
    lemma_decimal_reads_back, stripped, trimmed, trimmed_start, u64_value, white_space, words_of,
};
use vstd::prelude::*;

verus! {

/// What the harness hands on to the guest of a host command.
pub open spec fn handed_on(c: HarnessCommand) -> Option<Seq<char>> {
    stripped(c.text_of(), "guest "@)
}

/// What the host asks of the guest.
pub open spec fn asked_of_guest(c: HarnessCommand) -> Option<Command> {
    match c {
        HarnessCommand::Touch { gib } => Some(Command::Touch { gib }),
        HarnessCommand::Free => Some(Command::Free),
        HarnessCommand::Mem => Some(Command::Mem),
        HarnessCommand::FleetStart { mib } => Some(Command::FleetStart { count: 1, mib }),
        HarnessCommand::FleetStopOne => Some(Command::FleetStopOne),
        HarnessCommand::Balloon { mib: _ } | HarnessCommand::Quit => None,
    }
}

proof fn lemma_trimmed_plain(s: Seq<char>)
    requires
        s.len() > 0,
        !white_space(s.first()),
        !white_space(s.last()),
    ensures
        trimmed(s) == s,
{
}

proof fn lemma_number_is_plain(n: u64)
    ensures
        ({
            let d = decimal_of(n as nat);
            &&& d.len() > 0
            &&& forall|i: int| 0 <= i < d.len() ==> !white_space(#[trigger] d[i])
            &&& trimmed(d) == d
            &&& trimmed(" "@ + d) == d
            &&& u64_value(d) == Some(n)
        }),
{
    let d = decimal_of(n as nat);
    lemma_decimal_reads_back(n as nat);
    assert forall|i: int| 0 <= i < d.len() implies !white_space(#[trigger] d[i]) by {
        assert(is_digit(d[i]));
    }
    assert(!white_space(d[0]));
    assert(!white_space(d[d.len() - 1]));
    reveal_strlit(" ");
    assert((" "@ + d).drop_first() =~= d);
    reveal_with_fuel(trimmed_start, 2);
}

/// A word after white space is one more word.
pub proof fn lemma_one_more_word(before: Seq<char>, w: Seq<char>)
    requires
        w.len() > 0,
        forall|i: int| 0 <= i < w.len() ==> !white_space(#[trigger] w[i]),
        before.len() > 0 ==> white_space(before.last()),
    ensures
        words_of(before + w) == words_of(before).push(w),
    decreases w.len(),
{
    let s = before + w;
    let shorter = w.drop_last();
    assert(s.drop_last() =~= before + shorter);
    assert(s.last() == w[w.len() - 1]);
    if shorter.len() == 0 {
        assert(before + shorter =~= before);
        assert(w =~= seq![w[0]]);
    } else {
        assert forall|i: int| 0 <= i < shorter.len() implies !white_space(#[trigger] shorter[i]) by {
            assert(w[i] == shorter[i]);
        }
        lemma_one_more_word(before, shorter);
        assert(s[s.len() - 2] == w[w.len() - 2]);
        assert(shorter.push(w.last()) =~= w);
        assert(words_of(before).push(shorter).drop_last() =~= words_of(before));
    }
}

proof fn lemma_fleet_words(mib: u64)
    ensures
        ({
            let ws = words_of("1 "@ + decimal_of(mib as nat));
            &&& word_number(ws, 0) == 1
            &&& word_number(ws, 1) == mib
        }),
{
    let d = decimal_of(mib as nat);
    lemma_number_is_plain(mib);
    reveal_strlit("1 ");
    let none = Seq::<char>::empty();
    let one = seq!['1'];
    lemma_one_more_word(none, one);
    assert(none + one =~= one);
    assert("1 "@.drop_last() =~= one);
    assert(words_of("1 "@) == words_of(one));
    lemma_one_more_word("1 "@, d);
    let ws = words_of("1 "@ + d);
    assert(ws[0] == one);
    assert(ws[1] == d);
    assert(is_digits(one));
    assert(one.drop_last() =~= none);
    reveal_with_fuel(digits_value, 2);
    assert(u64_value(one) == Some(1u64));
}

/// What the harness hands on of a host command, the guest reads as what the
/// host meant; and what is not meant for the guest is not handed on.
pub proof fn law_guest_understands_the_host(c: HarnessCommand)
    ensures
        match asked_of_guest(c) {
            Some(command) => handed_on(c) is Some && command_of(handed_on(c)->0) == command,
            None => handed_on(c) is None,
        },
{
    reveal_strlit("guest ");
    match c {
        HarnessCommand::Touch { gib } => {
            lemma_touch_understood(gib);
        },
        HarnessCommand::FleetStart { mib } => {
            lemma_fleet_start_understood(mib);
        },
        HarnessCommand::Free => {
            lemma_plain_understood();
        },
        HarnessCommand::Mem => {
            lemma_plain_understood();
        },
        HarnessCommand::FleetStopOne => {
            lemma_plain_understood();
        },
        HarnessCommand::Balloon { mib } => {
            reveal_strlit("balloon ");
            let t = c.text_of();
            assert(t[0] == 'b');
            assert(t.take(6)[0] != "guest "@[0]);
        },
        HarnessCommand::Quit => {
            reveal_strlit("quit");
        },
    }
}

proof fn lemma_stripped(s: Seq<char>, prefix: Seq<char>, rest: Seq<char>)
    requires
        s == prefix + rest,
    ensures
        stripped(s, prefix) == Some(rest),
{
    assert(s.take(prefix.len() as int) =~= prefix);
    assert(s.skip(prefix.len() as int) =~= rest);
}

proof fn lemma_touch_understood(gib: u64)
    ensures
        handed_on(HarnessCommand::Touch { gib }) == Some("touch "@ + decimal_of(gib as nat)),
        command_of("touch "@ + decimal_of(gib as nat)) == (Command::Touch { gib }),
{
    let d = decimal_of(gib as nat);
    lemma_number_is_plain(gib);
    reveal_strlit("guest ");
    reveal_strlit("touch ");
    reveal_strlit("guest touch ");
    assert("guest touch "@ =~= "guest "@ + "touch "@);
    assert("guest touch "@ + d =~= "guest "@ + ("touch "@ + d));
    lemma_stripped("guest touch "@ + d, "guest "@, "touch "@ + d);
    let line = "touch "@ + d;
    assert(line.last() == d[d.len() - 1]);
    lemma_trimmed_plain(line);
    lemma_stripped(line, "touch "@, d);
}

proof fn lemma_fleet_start_understood(mib: u64)
    ensures
        handed_on(HarnessCommand::FleetStart { mib }) == Some(
            "fleet start "@ + ("1 "@ + decimal_of(mib as nat)),
        ),
        command_of("fleet start "@ + ("1 "@ + decimal_of(mib as nat))) == (Command::FleetStart {
            count: 1,
            mib,
        }),
{
    let d = decimal_of(mib as nat);
    lemma_number_is_plain(mib);
    lemma_fleet_words(mib);
    reveal_strlit("guest ");
    reveal_strlit("touch ");
    reveal_strlit("free");
    reveal_strlit("mem");
    reveal_strlit("1 ");
    reveal_strlit("fleet start ");
    reveal_strlit("guest fleet start 1 ");
    let line = "fleet start "@ + ("1 "@ + d);
    assert("guest fleet start 1 "@ =~= "guest "@ + ("fleet start "@ + "1 "@));
    assert("guest fleet start 1 "@ + d =~= "guest "@ + line);
    lemma_stripped("guest fleet start 1 "@ + d, "guest "@, line);
    assert(line.last() == d[d.len() - 1]);
    lemma_trimmed_plain(line);
    assert(line.take(6)[0] != "touch "@[0]);
    lemma_stripped(line, "fleet start "@, "1 "@ + d);
}

proof fn lemma_plain_understood()
    ensures
        handed_on(HarnessCommand::Free) == Some("free"@),
        command_of("free"@) == Command::Free,
        handed_on(HarnessCommand::Mem) == Some("mem"@),
        command_of("mem"@) == Command::Mem,
        handed_on(HarnessCommand::FleetStopOne) == Some("fleet stop-one"@),
        command_of("fleet stop-one"@) == Command::FleetStopOne,
{
    reveal_strlit("guest ");
    reveal_strlit("guest free");
    reveal_strlit("guest mem");
    reveal_strlit("guest fleet stop-one");
    reveal_strlit("touch ");
    reveal_strlit("free");
    reveal_strlit("mem");
    reveal_strlit("fleet start ");
    reveal_strlit("fleet stop-one");
    assert("guest free"@ =~= "guest "@ + "free"@);
    lemma_stripped("guest free"@, "guest "@, "free"@);
    lemma_trimmed_plain("free"@);
    assert("guest mem"@ =~= "guest "@ + "mem"@);
    lemma_stripped("guest mem"@, "guest "@, "mem"@);
    lemma_trimmed_plain("mem"@);
    assert("guest fleet stop-one"@ =~= "guest "@ + "fleet stop-one"@);
    lemma_stripped("guest fleet stop-one"@, "guest "@, "fleet stop-one"@);
    lemma_trimmed_plain("fleet stop-one"@);
    let line = "fleet stop-one"@;
    assert(line.take(6)[0] != "touch "@[0]);
    assert(line.take(12)[8] != "fleet start "@[8]);
}

/// The signal that carries a reply.
pub open spec fn carried_by(r: Reply) -> Signal {
    match r {
        Reply::Ready => Signal::Ready,
        Reply::Touched { gib: _ } => Signal::Touched,
        Reply::Freed => Signal::Freed,
        Reply::Mem { kib: _ } => Signal::Mem,
        Reply::FleetStarted { count: _ } => Signal::FleetStarted,
        Reply::FleetStopped { left: _ } => Signal::FleetStopped,
    }
}

/// What the guest answers to a host command comes under the signal that the
/// host waits for.
pub proof fn law_answers_come_under_the_awaited_signal(c: HarnessCommand, kib: u64, left: u64)
    requires
        asked_of_guest(c) is Some,
    ensures
        answer_to(asked_of_guest(c)->0, kib, left) is Some,
        c.done_by() == Some(carried_by(answer_to(asked_of_guest(c)->0, kib, left)->0)),
{
}

/// The number a reply carries.
pub open spec fn number_in(r: Reply) -> Option<u64> {
    match r {
        Reply::Ready | Reply::Freed => None,
        Reply::Touched { gib } => Some(gib),
        Reply::Mem { kib } => Some(kib),
        Reply::FleetStarted { count } => Some(count),
        Reply::FleetStopped { left } => Some(left),
    }
}

proof fn lemma_reply_found(long: Seq<char>, prefix: Seq<char>, n: u64)
    requires
        long == prefix + " "@,
    ensures
        stripped(long + decimal_of(n as nat), prefix) == Some(" "@ + decimal_of(n as nat)),
        trimmed(" "@ + decimal_of(n as nat)) == decimal_of(n as nat),
        u64_value(decimal_of(n as nat)) == Some(n),
{
    let d = decimal_of(n as nat);
    lemma_number_is_plain(n);
    assert(long + d =~= prefix + (" "@ + d));
    lemma_stripped(long + d, prefix, " "@ + d);
}

/// The host finds every reply under the signal it waits for, and reads the
/// number in it back.
pub proof fn law_host_finds_the_replies(r: Reply)
    ensures
        stripped(r.line_of(), carried_by(r).prefix_of()) is Some,
        ({
            let rest = stripped(r.line_of(), carried_by(r).prefix_of())->0;
            match number_in(r) {
                Some(n) => u64_value(trimmed(rest)) == Some(n),
                None => rest.len() == 0,
            }
        }),
{
    reveal_strlit(" ");
    match r {
        Reply::Ready => {
            assert("RATCHET READY"@ =~= "RATCHET READY"@ + Seq::<char>::empty());
            lemma_stripped("RATCHET READY"@, "RATCHET READY"@, Seq::<char>::empty());
        },
        Reply::Freed => {
            assert("RATCHET FREED"@ =~= "RATCHET FREED"@ + Seq::<char>::empty());
            lemma_stripped("RATCHET FREED"@, "RATCHET FREED"@, Seq::<char>::empty());
        },
        Reply::Touched { gib } => {
            reveal_strlit("RATCHET TOUCHED");
            reveal_strlit("RATCHET TOUCHED ");
            assert("RATCHET TOUCHED "@ =~= "RATCHET TOUCHED"@ + " "@);
            lemma_reply_found("RATCHET TOUCHED "@, "RATCHET TOUCHED"@, gib);
        },
        Reply::Mem { kib } => {
            reveal_strlit("RATCHET MEM");
            reveal_strlit("RATCHET MEM ");
            assert("RATCHET MEM "@ =~= "RATCHET MEM"@ + " "@);
            lemma_reply_found("RATCHET MEM "@, "RATCHET MEM"@, kib);
        },
        Reply::FleetStarted { count } => {
            reveal_strlit("RATCHET FLEET-STARTED");
            reveal_strlit("RATCHET FLEET-STARTED ");
            assert("RATCHET FLEET-STARTED "@ =~= "RATCHET FLEET-STARTED"@ + " "@);
            lemma_reply_found("RATCHET FLEET-STARTED "@, "RATCHET FLEET-STARTED"@, count);
        },
        Reply::FleetStopped { left } => {
            reveal_strlit("RATCHET FLEET-STOPPED");
            reveal_strlit("RATCHET FLEET-STOPPED ");
            assert("RATCHET FLEET-STOPPED "@ =~= "RATCHET FLEET-STOPPED"@ + " "@);
            lemma_reply_found("RATCHET FLEET-STOPPED "@, "RATCHET FLEET-STOPPED"@, left);
        },
    }
}

/// Every reply is a protocol line: it is shown whether or not kernel messages
/// are.
pub proof fn law_replies_are_always_shown(r: Reply)
    ensures
        stripped(r.line_of(), "RATCHET "@) is Some,
{
    reveal_strlit("RATCHET ");
    match r {
        Reply::Ready => {
            reveal_strlit("RATCHET READY");
            assert(r.line_of().take(8) =~= "RATCHET "@);
        },
        Reply::Freed => {
            reveal_strlit("RATCHET FREED");
            assert(r.line_of().take(8) =~= "RATCHET "@);
        },
        Reply::Touched { gib: _ } => {
            reveal_strlit("RATCHET TOUCHED ");
            assert(r.line_of().take(8) =~= "RATCHET "@);
        },
        Reply::Mem { kib: _ } => {
            reveal_strlit("RATCHET MEM ");
            assert(r.line_of().take(8) =~= "RATCHET "@);
        },
        Reply::FleetStarted { count: _ } => {
            reveal_strlit("RATCHET FLEET-STARTED ");
            assert(r.line_of().take(8) =~= "RATCHET "@);
        },
        Reply::FleetStopped { left: _ } => {
            reveal_strlit("RATCHET FLEET-STOPPED ");
            assert(r.line_of().take(8) =~= "RATCHET "@);
        },
    }
}

/// Whatever the numbers, a start of services is read as the count and the size
/// that were written, in this order.
pub proof fn law_fleet_starts_are_read_back(count: u64, mib: u64)
    ensures
        command_of(
            "fleet start "@ + (decimal_of(count as nat) + (" "@ + decimal_of(mib as nat))),
        ) == (Command::FleetStart { count, mib }),
        command_of("fleet stop"@) is FleetStop,
{
    let a = decimal_of(count as nat);
    let b = decimal_of(mib as nat);
    let rest = a + (" "@ + b);
    let line = "fleet start "@ + rest;
    lemma_number_is_plain(count);
    lemma_number_is_plain(mib);
    reveal_strlit(" ");
    reveal_strlit("fleet start ");
    reveal_strlit("fleet stop");
    assert(line.last() == b[b.len() - 1]);
    lemma_trimmed_plain(line);
    lemma_trimmed_plain("fleet stop"@);
    law_commands_were_written(line, rest);
    law_commands_were_written("fleet stop"@, rest);
    law_white_space_parts_words(a, ' ', b, a);
    law_white_space_parts_words(a, ' ', b, b);
    assert(rest =~= a + seq![' '] + b);
    let ws = words_of(rest);
    assert(ws[0] == a && ws[1] == b);
}

/// The answer tells what was asked for, or what was found: how much was
/// touched, how much is available, how many services were started, and how many
/// are left, which is none once all were stopped.
pub proof fn law_answers_tell_what_was_asked(c: Command, kib: u64, left: u64)
    ensures
        match answer_to(c, kib, left) {
            Some(reply) => match c {
                Command::Touch { gib } => carried_by(reply) is Touched && number_in(reply) == Some(
                    gib,
                ),
                Command::Free => carried_by(reply) is Freed && number_in(reply) is None,
                Command::Mem => carried_by(reply) is Mem && number_in(reply) == Some(kib),
                Command::FleetStart { count, .. } => carried_by(reply) is FleetStarted && number_in(
                    reply,
                ) == Some(count),
                Command::FleetStopOne => carried_by(reply) is FleetStopped && number_in(reply)
                    == Some(left),
                Command::FleetStop => carried_by(reply) is FleetStopped && number_in(reply) == Some(
                    0u64,
                ),
                _ => false,
            },
            None => c is Blank || c is Unknown,
        },
{
}

}
