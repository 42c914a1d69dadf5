//! Device discovery: asking every enabled ADB server for its devices.
use vstd::prelude::*;

use crate::leases::{Device, DeviceRef};
use crate::scrcpy_client::{server_args, server_argv};
use crate::text::{
    all_white, chars_of, first_two_words, first_word, is_white, law_missing_words, law_words,
    lemma_run_end, no_white, push_text, run_end, same_text, scan, second_word, Run,
};

verus! {

/// A configured ADB server.
pub struct AdbServer {
    pub host: String,
    pub port: u16,
    /// Disabled servers are left alone.
    pub enabled: bool,
}

impl Clone for AdbServer {
    fn clone(&self) -> (r: Self)
        ensures
            r == *self,
    {
        AdbServer { host: self.host.clone(), port: self.port, enabled: self.enabled }
    }
}

/// The servers of `servers` that are enabled, in order.
pub open spec fn enabled_of(servers: Seq<AdbServer>) -> Seq<AdbServer> {
    servers.filter(|s: AdbServer| s.enabled)
}

/// The servers to be asked.
pub fn enabled_servers(servers: &Vec<AdbServer>) -> (r: Vec<AdbServer>)
    ensures
        r@ == enabled_of(servers@),
{
    let mut out: Vec<AdbServer> = Vec::new();
    let mut i: usize = 0;
    proof {
        reveal(Seq::filter);
        assert(servers@.take(0) =~= Seq::empty());
    }
    while i < servers.len()
        invariant
            i <= servers.len(),
            out@ == enabled_of(servers@.take(i as int)),
        decreases servers.len() - i,
    {
        proof {
            reveal(Seq::filter);
            assert(servers@.take(i + 1).drop_last() =~= servers@.take(i as int));
            assert(servers@.take(i + 1).last() == servers@[i as int]);
        }
        if servers[i].enabled {
            out.push(servers[i].clone());
        }
        i += 1;
    }
    proof {
        assert(servers@.take(i as int) =~= servers@);
    }
    out
}

/// The `adb` arguments that list the devices of `server`.
pub fn devices_args(server: &AdbServer) -> (r: Vec<String>)
    ensures
        r.deep_view() == server_argv(server.host@, server.port).push("devices"@),
{
    let mut args = server_args(server.host.as_str(), server.port);
    push_text(&mut args, "devices");
    args
}

/// The serial and the status that one line of `adb devices` holds, if it holds
/// both.
pub open spec fn device_line(line: Seq<char>) -> Seq<(Seq<char>, Seq<char>)> {
    match (first_word(line), second_word(line)) {
        (Some(serial), Some(status)) => seq![(serial, status)],
        _ => Seq::empty(),
    }
}

/// What the lines of `s` from position `i` on hold.
pub open spec fn device_lines(s: Seq<char>, i: int) -> Seq<(Seq<char>, Seq<char>)>
    decreases s.len() - i,
{
    let end = run_end(Run::Line, s, i);
    if !(0 <= i < s.len()) {
        Seq::empty()
    } else if i <= end < s.len() {
        device_line(s.subrange(i, end)) + device_lines(s, end + 1)
    } else {
        device_line(s.subrange(i, end))
    }
}

/// The serial and status pairs that `adb devices` printed: one per line, after
/// the heading.
pub open spec fn devices_printed(output: Seq<char>) -> Seq<(Seq<char>, Seq<char>)> {
    device_lines(output, run_end(Run::Line, output, 0) + 1)
}

/// Reads the output of `adb devices`.
pub fn parse_adb_devices(output: &str) -> (r: Vec<(String, String)>)
    ensures
        r.deep_view() == devices_printed(output@),
{
    let cs = chars_of(output);
    let mut out: Vec<(String, String)> = Vec::new();
    let head = scan(Run::Line, &cs, 0);
    if head >= cs.len() {
        proof {
            assert(out.deep_view() =~= devices_printed(output@));
        }
        return out;
    }
    let mut i: usize = head + 1;
    let ghost want = devices_printed(output@);
    proof {
        assert(out.deep_view() + device_lines(cs@, i as int) =~= want);
    }
    while i < cs.len()
        invariant
            cs@ == output@,
            i <= cs@.len(),
            want == devices_printed(output@),
            out.deep_view() + device_lines(cs@, i as int) == want,
        decreases cs@.len() - i,
    {
        let end = scan(Run::Line, &cs, i);
        let line = output.substring_char(i, end);
        let ghost before = out.deep_view();
        let words = first_two_words(line);
        if let (Some(serial), Some(status)) = words {
            out.push((serial, status));
            proof {
                assert(out.deep_view() =~= before + device_line(line@));
            }
        } else {
            proof {
                assert(out.deep_view() =~= before + device_line(line@));
            }
        }
        if end >= cs.len() {
            return out;
        }
        proof {
            assert(out.deep_view() + device_lines(cs@, end + 1) =~= before + (device_line(line@)
                + device_lines(cs@, end + 1)));
        }
        i = end + 1;
    }
    proof {
        assert(device_lines(cs@, i as int) =~= Seq::empty());
        assert(out.deep_view() =~= want);
    }
    out
}

/// The healthy ones among `listed`, as devices of `server`. `adb devices` prints
/// "device" for a healthy device.
pub open spec fn healthy(server: AdbServer, listed: Seq<(Seq<char>, Seq<char>)>) -> Seq<Device>
    decreases listed.len(),
{
    if listed.len() == 0 {
        Seq::empty()
    } else {
        let rest = healthy(server, listed.drop_last());
        if listed.last().1 == "device"@ {
            rest.push(
                Device { serial: listed.last().0, host: server.host@, port: server.port },
            )
        } else {
            rest
        }
    }
}

/// The online devices of `servers`, given what each of them printed.
pub open spec fn online(servers: Seq<AdbServer>, outputs: Seq<Seq<char>>) -> Seq<Device>
    decreases servers.len(),
{
    if servers.len() == 0 {
        Seq::empty()
    } else {
        online(servers.drop_last(), outputs.drop_last()) + healthy(
            servers.last(),
            devices_printed(outputs.last()),
        )
    }
}

fn push_healthy(out: &mut Vec<DeviceRef>, server: &AdbServer, listed: &Vec<(String, String)>)
    ensures
        final(out).deep_view() == old(out).deep_view() + healthy(*server, listed.deep_view()),
{
    let ghost start = out.deep_view();
    let ghost all = listed.deep_view();
    let mut i: usize = 0;
    proof {
        assert(start + healthy(*server, all.take(0)) =~= start);
    }
    while i < listed.len()
        invariant
            i <= listed.len(),
            all == listed.deep_view(),
            out.deep_view() == start + healthy(*server, all.take(i as int)),
        decreases listed.len() - i,
    {
        let ghost before = out.deep_view();
        proof {
            assert(all.take(i + 1).drop_last() =~= all.take(i as int));
            assert(all.take(i + 1).last() == listed[i as int].deep_view());
        }
        if same_text(listed[i].1.as_str(), "device") {
            out.push(
                DeviceRef {
                    serial: listed[i].0.clone(),
                    server_host: server.host.clone(),
                    server_port: server.port,
                },
            );
            proof {
                assert(out.deep_view() =~= before.push(
                    Device { serial: all[i as int].0, host: server.host@, port: server.port },
                ));
                assert(out.deep_view() =~= start + healthy(*server, all.take(i + 1)));
            }
        }
        i += 1;
    }
    proof {
        assert(all.take(i as int) =~= all);
    }
}

/// The devices that are online, given what `adb devices` printed on each of
/// `servers` (nothing where it could not be run).
pub fn online_devices(servers: &Vec<AdbServer>, outputs: &Vec<String>) -> (r: Vec<DeviceRef>)
    requires
        servers@.len() == outputs@.len(),
    ensures
        r.deep_view() == online(servers@, outputs.deep_view()),
{
    let mut out: Vec<DeviceRef> = Vec::new();
    let ghost printed = outputs.deep_view();
    let mut i: usize = 0;
    proof {
        assert(out.deep_view() =~= Seq::empty());
    }
    while i < servers.len()
        invariant
            i <= servers@.len(),
            servers@.len() == outputs@.len(),
            printed == outputs.deep_view(),
            out.deep_view() == online(servers@.take(i as int), printed.take(i as int)),
        decreases servers.len() - i,
    {
        proof {
            assert(servers@.take(i + 1).drop_last() =~= servers@.take(i as int));
            assert(printed.take(i + 1).drop_last() =~= printed.take(i as int));
            assert(printed.take(i + 1).last() == outputs[i as int]@);
        }
        let listed = parse_adb_devices(outputs[i].as_str());
        push_healthy(&mut out, &servers[i], &listed);
        i += 1;
    }
    proof {
        assert(servers@.take(i as int) =~= servers@);
        assert(printed.take(i as int) =~= printed);
    }
    out
}

// ---------------------------------------------------------------------------
// Laws
// ---------------------------------------------------------------------------

/// Whether the server number `i` printed `d` as a healthy device of its own.
pub open spec fn printed_by(
    servers: Seq<AdbServer>,
    outputs: Seq<Seq<char>>,
    i: int,
    d: Device,
) -> bool {
    &&& 0 <= i < servers.len()
    &&& d.host == servers[i].host@
    &&& d.port == servers[i].port
    &&& devices_printed(outputs[i]).contains((d.serial, "device"@))
}

proof fn lemma_healthy(server: AdbServer, listed: Seq<(Seq<char>, Seq<char>)>, d: Device)
    ensures
        healthy(server, listed).contains(d) <==> d.host == server.host@ && d.port == server.port
            && listed.contains((d.serial, "device"@)),
    decreases listed.len(),
{
    let entry = (d.serial, "device"@);
    if listed.len() > 0 {
        let init = listed.drop_last();
        let rest = healthy(server, init);
        let all = healthy(server, listed);
        lemma_healthy(server, init, d);
        assert(listed =~= init.push(listed.last()));
        if rest.contains(d) {
            let k = choose|k: int| 0 <= k < rest.len() && rest[k] == d;
            assert(all[k] == d);
        }
        if listed.last() == entry && d.host == server.host@ && d.port == server.port {
            assert(all[all.len() - 1] == d);
        }
        if all.contains(d) {
            let k = choose|k: int| 0 <= k < all.len() && all[k] == d;
            if k < rest.len() {
                assert(rest[k] == d);
            } else {
                assert(listed[listed.len() - 1] == entry);
            }
        }
        if init.contains(entry) {
            let k = choose|k: int| 0 <= k < init.len() && init[k] == entry;
            assert(listed[k] == entry);
        }
        if listed.contains(entry) {
            let k = choose|k: int| 0 <= k < listed.len() && listed[k] == entry;
            if k < init.len() {
                assert(init[k] == entry);
            }
        }
    }
}

/// The online devices are exactly those that a server printed as healthy, each on
/// the server that printed it.
pub proof fn law_online_devices_are_the_healthy_ones(
    servers: Seq<AdbServer>,
    outputs: Seq<Seq<char>>,
    d: Device,
)
    requires
        servers.len() == outputs.len(),
    ensures
        online(servers, outputs).contains(d) <==> exists|i: int| #[trigger]
            printed_by(servers, outputs, i, d),
    decreases servers.len(),
{
    if servers.len() > 0 {
        let n = servers.len() - 1;
        let init = servers.drop_last();
        let before = outputs.drop_last();
        let first = online(init, before);
        let last = healthy(servers.last(), devices_printed(outputs.last()));
        let all = online(servers, outputs);
        law_online_devices_are_the_healthy_ones(init, before, d);
        lemma_healthy(servers.last(), devices_printed(outputs.last()), d);
        if first.contains(d) {
            let k = choose|k: int| 0 <= k < first.len() && first[k] == d;
            assert(all[k] == d);
            let i = choose|i: int| #[trigger] printed_by(init, before, i, d);
            assert(printed_by(servers, outputs, i, d));
        }
        if last.contains(d) {
            let k = choose|k: int| 0 <= k < last.len() && last[k] == d;
            assert(all[first.len() + k] == d);
            assert(printed_by(servers, outputs, n, d));
        }
        if all.contains(d) {
            let k = choose|k: int| 0 <= k < all.len() && all[k] == d;
            if k < first.len() {
                assert(first[k] == d);
            } else {
                assert(last[k - first.len()] == d);
            }
        }
        if exists|i: int| #[trigger] printed_by(servers, outputs, i, d) {
            let i = choose|i: int| #[trigger] printed_by(servers, outputs, i, d);
            if i < n {
                assert(printed_by(init, before, i, d));
            }
        }
    } else {
        assert(!online(servers, outputs).contains(d));
    }
}

/// Only enabled servers are asked, and every enabled one is.
pub proof fn law_enabled_servers_are_asked(servers: Seq<AdbServer>, s: AdbServer)
    ensures
        enabled_of(servers).contains(s) <==> servers.contains(s) && s.enabled,
    decreases servers.len(),
{
    reveal(Seq::filter);
    if servers.len() > 0 {
        let init = servers.drop_last();
        let rest = enabled_of(init);
        let all = enabled_of(servers);
        law_enabled_servers_are_asked(init, s);
        if rest.contains(s) {
            let k = choose|k: int| 0 <= k < rest.len() && rest[k] == s;
            assert(all[k] == s);
        }
        if all.contains(s) {
            let k = choose|k: int| 0 <= k < all.len() && all[k] == s;
            if k < rest.len() {
                assert(rest[k] == s);
            } else {
                assert(servers[servers.len() - 1] == s);
            }
        }
        if init.contains(s) {
            let k = choose|k: int| 0 <= k < init.len() && init[k] == s;
            assert(servers[k] == s);
        }
        if servers.contains(s) && s.enabled {
            let k = choose|k: int| 0 <= k < servers.len() && servers[k] == s;
            if k < init.len() {
                assert(init[k] == s);
            } else {
                assert(all[all.len() - 1] == s);
            }
        }
    }
}

/// A line that names a device gives its serial and its status: the first two words,
/// whatever follows.
pub proof fn law_device_line(
    before: Seq<char>,
    serial: Seq<char>,
    between: Seq<char>,
    status: Seq<char>,
    rest: Seq<char>,
)
    requires
        all_white(before),
        no_white(serial),
        serial.len() > 0,
        all_white(between),
        between.len() > 0,
        no_white(status),
        status.len() > 0,
        rest.len() == 0 || is_white(rest[0]),
    ensures
        device_line(before + serial + between + status + rest) == seq![(serial, status)],
        device_line(before + serial + between).len() == 0,
        device_line(before).len() == 0,
{
    law_words(before, serial, between, status, rest);
    law_missing_words(before, serial, between);
}

proof fn lemma_run_shift(run: Run, a: Seq<char>, b: Seq<char>, i: int)
    requires
        0 <= i <= b.len(),
    ensures
        run_end(run, a + b, a.len() + i) == a.len() + run_end(run, b, i),
    decreases b.len() - i,
{
    if i < b.len() {
        assert((a + b)[a.len() + i] == b[i]);
        lemma_run_shift(run, a, b, i + 1);
    }
}

proof fn lemma_lines_shift(a: Seq<char>, b: Seq<char>, i: int)
    requires
        0 <= i <= b.len(),
    ensures
        device_lines(a + b, a.len() + i) == device_lines(b, i),
    decreases b.len() - i,
{
    if i < b.len() {
        lemma_run_shift(Run::Line, a, b, i);
        lemma_run_end(Run::Line, b, i);
        let end = run_end(Run::Line, b, i);
        assert((a + b).subrange(a.len() + i, a.len() + end) =~= b.subrange(i, end));
        if end < b.len() {
            lemma_lines_shift(a, b, end + 1);
        }
    }
}

/// Whether `s` is part of a single line.
pub open spec fn no_feed(s: Seq<char>) -> bool {
    forall|k: int| 0 <= k < s.len() ==> #[trigger] s[k] != '\n'
}

proof fn lemma_line_ends(s: Seq<char>, line: Seq<char>)
    requires
        no_feed(line),
        line.len() <= s.len(),
        s.take(line.len() as int) == line,
        line.len() < s.len() ==> s[line.len() as int] == '\n',
    ensures
        run_end(Run::Line, s, 0) == line.len(),
{
    lemma_run_end(Run::Line, s, 0);
    let end = run_end(Run::Line, s, 0);
    if end < line.len() {
        assert(s.take(line.len() as int)[end] == line[end]);
    }
}

/// The first line is a heading and gives no device. Every line after it is read on its
/// own, in order.
pub proof fn law_lines_are_read_one_by_one(heading: Seq<char>, line: Seq<char>, rest: Seq<char>)
    requires
        no_feed(heading),
        no_feed(line),
    ensures
        devices_printed(heading).len() == 0,
        devices_printed(heading + seq!['\n']).len() == 0,
        devices_printed(heading + seq!['\n'] + line) == device_line(line),
        devices_printed(heading + seq!['\n'] + (line + seq!['\n'] + rest)) == device_line(line)
            + devices_printed(heading + seq!['\n'] + rest),
{
    let head = heading + seq!['\n'];
    assert(heading.take(heading.len() as int) =~= heading);
    lemma_line_ends(heading, heading);
    assert(head.take(heading.len() as int) =~= heading);
    lemma_line_ends(head, heading);

    let one = head + line;
    assert(one.take(heading.len() as int) =~= heading);
    lemma_line_ends(one, heading);
    lemma_lines_shift(head, line, 0);
    assert(line.take(line.len() as int) =~= line);
    lemma_line_ends(line, line);
    assert(line.subrange(0, line.len() as int) =~= line);
    if line.len() == 0 {
        lemma_run_end(Run::White, line, 0);
    }

    let more = line + seq!['\n'] + rest;
    let many = head + more;
    assert(many.take(heading.len() as int) =~= heading);
    lemma_line_ends(many, heading);
    lemma_lines_shift(head, more, 0);
    assert(more.take(line.len() as int) =~= line);
    lemma_line_ends(more, line);
    assert(more.subrange(0, line.len() as int) =~= line);
    assert(more =~= (line + seq!['\n']) + rest);
    lemma_lines_shift(line + seq!['\n'], rest, 0);

    let fewer = head + rest;
    assert(fewer.take(heading.len() as int) =~= heading);
    lemma_line_ends(fewer, heading);
    lemma_lines_shift(head, rest, 0);
}

/// Of what a server printed, each entry counts on its own: it is a device of the server
/// exactly where its status is `device`, and the order stays.
pub proof fn law_healthy_entries(
    server: AdbServer,
    a: Seq<(Seq<char>, Seq<char>)>,
    b: Seq<(Seq<char>, Seq<char>)>,
    entry: (Seq<char>, Seq<char>),
)
    ensures
        healthy(server, Seq::empty()).len() == 0,
        entry.1 == "device"@ ==> healthy(server, seq![entry]) =~= seq![
            Device { serial: entry.0, host: server.host@, port: server.port },
        ],
        entry.1 != "device"@ ==> healthy(server, seq![entry]).len() == 0,
        healthy(server, a + b) == healthy(server, a) + healthy(server, b),
    decreases b.len(),
{
    assert(seq![entry].drop_last() =~= Seq::empty());
    assert(healthy(server, seq![entry].drop_last()) =~= Seq::empty());
    assert(seq![entry].last() == entry);
    if b.len() == 0 {
        assert(a + b =~= a);
        assert(healthy(server, a) + healthy(server, b) =~= healthy(server, a));
    } else {
        assert((a + b).drop_last() =~= a + b.drop_last());
        law_healthy_entries(server, a, b.drop_last(), entry);
        assert(healthy(server, a + b) =~= healthy(server, a) + healthy(server, b));
    }
}

/// The servers are taken one after the other: the devices of all are those of the first
/// ones followed by those of the others, and those of one server are its healthy ones.
pub proof fn law_servers_are_taken_in_turn(
    one: Seq<AdbServer>,
    printed_one: Seq<Seq<char>>,
    two: Seq<AdbServer>,
    printed_two: Seq<Seq<char>>,
    server: AdbServer,
    printed: Seq<char>,
)
    requires
        one.len() == printed_one.len(),
        two.len() == printed_two.len(),
    ensures
        online(Seq::empty(), Seq::empty()).len() == 0,
        online(seq![server], seq![printed]) == healthy(server, devices_printed(printed)),
        online(one + two, printed_one + printed_two) == online(one, printed_one) + online(
            two,
            printed_two,
        ),
    decreases two.len(),
{
    assert(seq![server].drop_last() =~= Seq::empty());
    assert(seq![printed].drop_last() =~= Seq::empty());
    assert(online(seq![server].drop_last(), seq![printed].drop_last()) =~= Seq::empty());
    assert(seq![server].last() == server && seq![printed].last() == printed);
    assert(online(seq![server], seq![printed]) =~= healthy(server, devices_printed(printed)));
    if two.len() == 0 {
        assert(one + two =~= one);
        assert(printed_one + printed_two =~= printed_one);
        assert(online(one, printed_one) + online(two, printed_two) =~= online(one, printed_one));
    } else {
        assert((one + two).drop_last() =~= one + two.drop_last());
        assert((printed_one + printed_two).drop_last() =~= printed_one + printed_two.drop_last());
        law_servers_are_taken_in_turn(
            one,
            printed_one,
            two.drop_last(),
            printed_two.drop_last(),
            server,
            printed,
        );
        assert(online(one + two, printed_one + printed_two) =~= online(one, printed_one) + online(
            two,
            printed_two,
        ));
    }
}

/// What the functions of discovery return is what the laws speak of.
pub proof fn law_discovery(
    servers: &Vec<AdbServer>,
    asked: Vec<AdbServer>,
    server: &AdbServer,
    args: Vec<String>,
    output: &str,
    rows: Vec<(String, String)>,
    outputs: &Vec<String>,
    found: Vec<DeviceRef>,
)
    requires
        call_ensures(enabled_servers, (servers,), asked),
        call_ensures(devices_args, (server,), args),
        call_ensures(parse_adb_devices, (output,), rows),
        call_ensures(online_devices, (servers, outputs), found),
    ensures
        asked@ == servers@.filter(|s: AdbServer| s.enabled),
        args.deep_view() =~= seq![
            "-H"@,
            server.host@,
            "-P"@,
            crate::text::decimal(server.port as nat),
            "devices"@,
        ],
        rows.deep_view() == devices_printed(output@),
        found.deep_view() == online(servers@, outputs.deep_view()),
{
}

} // verus!
