//! Choosing the network interface to capture on, for the sniffer and for the
//! dashboard, and the capture errors reported about it.
//!
//! The list of interfaces comes from the packet-capture library outside; each arrives
//! here as a [`NetInterface`] holding what the choice reads.
use crate::text::{
    chars_of, find_str, find_sub, push_str, str_eq, to_lowercase, to_owned_string, unicode_lower,
};
use vstd::prelude::*;

verus! {

/// A network interface as the choice sees it.
pub struct NetInterface {
    pub name: String,
    pub up: bool,
    pub loopback: bool,
    /// The interface has at least one address (of any family).
    pub has_addresses: bool,
    /// Its IPv4 addresses, as big-endian integers.
    pub ipv4: Vec<u32>,
}

/// An interface worth capturing on by default: up, not loopback, with an address.
pub open spec fn usable(i: NetInterface) -> bool {
    i.up && !i.loopback && i.has_addresses
}

/// `k` is the first index of `s` that satisfies `usable`.
pub open spec fn is_first_usable(s: Seq<NetInterface>, k: int) -> bool {
    0 <= k < s.len() && usable(s[k]) && forall|j: int| 0 <= j < k ==> !usable(#[trigger] s[j])
}

/// `k` is the first index of `s` whose interface is named `name`.
pub open spec fn is_first_named(s: Seq<NetInterface>, name: Seq<char>, k: int) -> bool {
    0 <= k < s.len() && s[k].name@ == name && forall|j: int|
        0 <= j < k ==> (#[trigger] s[j]).name@ != name
}

/// The first usable interface, if any.
pub fn find_usable(list: &Vec<NetInterface>) -> (r: Option<usize>)
    ensures
        match r {
            Some(k) => is_first_usable(list@, k as int),
            None => forall|j: int| 0 <= j < list@.len() ==> !usable(#[trigger] list@[j]),
        },
{
    let mut i: usize = 0;
    while i < list.len()
        invariant
            i <= list@.len(),
            forall|j: int| 0 <= j < i ==> !usable(#[trigger] list@[j]),
        decreases list@.len() - i,
    {
        if list[i].up && !list[i].loopback && list[i].has_addresses {
            return Some(i);
        }
        i = i + 1;
    }
    None
}

/// The first interface named `name`, if any.
pub fn find_named(list: &Vec<NetInterface>, name: &str) -> (r: Option<usize>)
    ensures
        match r {
            Some(k) => is_first_named(list@, name@, k as int),
            None => forall|j: int| 0 <= j < list@.len() ==> (#[trigger] list@[j]).name@ != name@,
        },
{
    let mut i: usize = 0;
    while i < list.len()
        invariant
            i <= list@.len(),
            forall|j: int| 0 <= j < i ==> (#[trigger] list@[j]).name@ != name@,
        decreases list@.len() - i,
    {
        if str_eq(list[i].name.as_str(), name) {
            return Some(i);
        }
        i = i + 1;
    }
    None
}

/// The error when the requested interface does not exist.
pub open spec fn no_requested_message() -> Seq<char> {
    "Could not find requested interface"@
}

/// The error when no interface is usable by default.
pub open spec fn no_default_message() -> Seq<char> {
    "Could not find a suitable default interface"@
}

/// The interface a background capture opens: the one named, else the first usable one.
pub fn capture_interface(list: &Vec<NetInterface>, requested: Option<&str>) -> (r: Result<
    usize,
    String,
>)
    ensures
        match requested {
            Some(name) => match r {
                Ok(k) => is_first_named(list@, name@, k as int),
                Err(e) => e@ == no_requested_message() && forall|j: int|
                    0 <= j < list@.len() ==> (#[trigger] list@[j]).name@ != name@,
            },
            None => match r {
                Ok(k) => is_first_usable(list@, k as int),
                Err(e) => e@ == no_default_message() && forall|j: int|
                    0 <= j < list@.len() ==> !usable(#[trigger] list@[j]),
            },
        },
{
    match requested {
        Some(name) => match find_named(list, name) {
            Some(k) => Ok(k),
            None => Err(to_owned_string("Could not find requested interface")),
        },
        None => match find_usable(list) {
            Some(k) => Ok(k),
            None => Err(to_owned_string("Could not find a suitable default interface")),
        },
    }
}

/// The interface a capture command opens: the one given, else the name of the first
/// usable interface, else `fallback` (`eth0` for `sniff`, `en0` for the capture helper).
pub fn interface_or_default(list: &Vec<NetInterface>, given: Option<String>, fallback: &str) -> (name:
    String)
    ensures
        match given {
            Some(g) => name@ == g@,
            None => (exists|k: int| is_first_usable(list@, k) && name@ == list@[k].name@) || (
            (forall|j: int| 0 <= j < list@.len() ==> !usable(#[trigger] list@[j])) && name@
                == fallback@),
        },
{
    match given {
        Some(g) => g,
        None => match find_usable(list) {
            Some(k) => {
                let n = to_owned_string(list[k].name.as_str());
                assert(is_first_usable(list@, k as int));
                n
            },
            None => to_owned_string(fallback),
        },
    }
}

/// `k` is the first index of `args` equal to `--interface`.
pub open spec fn is_first_flag(args: Seq<String>, k: int) -> bool {
    0 <= k < args.len() && args[k]@ == "--interface"@ && forall|j: int|
        0 <= j < k ==> (#[trigger] args[j])@ != "--interface"@
}

/// The value of the capture helper's `--interface` option: the argument after the first
/// `--interface` (empty when it is the last argument); none without the option.
pub fn interface_arg(args: &Vec<String>) -> (r: Option<String>)
    ensures
        match r {
            None => forall|j: int| 0 <= j < args@.len() ==> (#[trigger] args@[j])@ != "--interface"@,
            Some(v) => exists|k: int|
                is_first_flag(args@, k) && v@ == (if k + 1 < args@.len() {
                    args@[k + 1]@
                } else {
                    Seq::<char>::empty()
                }),
        },
{
    let mut i: usize = 0;
    while i < args.len()
        invariant
            i <= args@.len(),
            forall|j: int| 0 <= j < i ==> (#[trigger] args@[j])@ != "--interface"@,
        decreases args@.len() - i,
    {
        if str_eq(args[i].as_str(), "--interface") {
            let v = if i + 1 < args.len() {
                to_owned_string(args[i + 1].as_str())
            } else {
                String::new()
            };
            assert(is_first_flag(args@, i as int));
            return Some(v);
        }
        i = i + 1;
    }
    None
}

/// The error of the `sniff` command for an interface name that does not exist.
pub open spec fn not_found_text(name: Seq<char>) -> Seq<char> {
    "Interface not found: "@ + name
}

/// The interface the `sniff` command captures on: the first one with that name.
pub fn sniff_target(list: &Vec<NetInterface>, name: &str) -> (r: Result<usize, String>)
    ensures
        match r {
            Ok(k) => is_first_named(list@, name@, k as int),
            Err(e) => e@ == not_found_text(name@) && forall|j: int|
                0 <= j < list@.len() ==> (#[trigger] list@[j]).name@ != name@,
        },
{
    match find_named(list, name) {
        Some(k) => Ok(k),
        None => {
            let mut e = to_owned_string("Interface not found: ");
            push_str(&mut e, name);
            Err(e)
        },
    }
}

/// The interfaces the dashboard lists: the usable ones, or all of them when none is.
pub open spec fn listed(s: Seq<NetInterface>) -> Seq<NetInterface> {
    let u = s.filter(|i: NetInterface| usable(i));
    if u.len() > 0 {
        u
    } else {
        s
    }
}

/// Executable form of [`listed`].
pub fn dashboard_interfaces(all: Vec<NetInterface>) -> (out: Vec<NetInterface>)
    ensures
        out@ == listed(all@),
{
    let ghost s = all@;
    let ghost pred = |i: NetInterface| usable(i);
    let mut rest = all;
    let mut kept: Vec<NetInterface> = Vec::new();
    let mut others: Vec<NetInterface> = Vec::new();
    let ghost mut taken: int = 0;
    while rest.len() > 0
        invariant
            0 <= taken <= s.len(),
            rest@ == s.skip(taken),
            kept@ == s.take(taken).filter(pred),
            pred == (|i: NetInterface| usable(i)),
            kept@.len() == 0 ==> others@ == s.take(taken),
        decreases rest@.len(),
    {
        let x = rest.remove(0);
        proof {
            assert(s.take(taken + 1).drop_last() =~= s.take(taken));
            assert(s.take(taken + 1).last() == s[taken]);
            assert(s.skip(taken + 1) =~= s.skip(taken).remove(0));
        }
        let is_usable = x.up && !x.loopback && x.has_addresses;
        proof {
            let t1 = s.take(taken + 1);
            reveal(Seq::filter);
            assert(pred(x) == is_usable);
            assert(t1.filter(pred) == (if pred(t1.last()) {
                t1.drop_last().filter(pred).push(t1.last())
            } else {
                t1.drop_last().filter(pred)
            }));
        }
        if is_usable {
            kept.push(x);
        } else if kept.len() == 0 {
            others.push(x);
        }
        proof {
            taken = taken + 1;
            if kept@.len() == 0 {
                assert(others@ =~= s.take(taken));
            }
        }
    }
    assert(s.take(taken) =~= s);
    if kept.len() > 0 {
        kept
    } else {
        others
    }
}

/// The name shown for the selected interface, or `n/a`.
pub fn selected_name(list: &Vec<NetInterface>, selected: Option<usize>) -> (name: String)
    ensures
        match selected {
            Some(k) if k < list@.len() => name@ == list@[k as int].name@,
            _ => name@ == "n/a"@,
        },
{
    match selected {
        Some(k) => {
            if k < list.len() {
                to_owned_string(list[k].name.as_str())
            } else {
                to_owned_string("n/a")
            }
        },
        None => to_owned_string("n/a"),
    }
}

/// The error shown when the dashboard has no interface to capture on.
pub open spec fn no_interface_message() -> Seq<char> {
    "No network interface available"@
}

/// The interface a dashboard capture restarts on: the selected one, if it exists.
pub fn restart_target(list: &Vec<NetInterface>, selected: Option<usize>) -> (r: Result<
    usize,
    String,
>)
    ensures
        match selected {
            Some(k) if k < list@.len() => r == Ok::<usize, String>(k),
            _ => r matches Err(e) && e@ == no_interface_message(),
        },
{
    match selected {
        Some(k) => {
            if k < list.len() {
                Ok(k)
            } else {
                Err(to_owned_string("No network interface available"))
            }
        },
        None => Err(to_owned_string("No network interface available")),
    }
}

/// The error reported when a capture channel cannot be opened.
pub open spec fn capture_error_text(name: Seq<char>, err: Seq<char>) -> Seq<char> {
    "Capture error on "@ + name + ": "@ + err + ". Try: sudo ncp dash"@
}

/// Executable form of [`capture_error_text`].
pub fn capture_error_message(name: &str, err: &str) -> (out: String)
    ensures
        out@ == capture_error_text(name@, err@),
{
    let mut s = to_owned_string("Capture error on ");
    push_str(&mut s, name);
    push_str(&mut s, ": ");
    push_str(&mut s, err);
    push_str(&mut s, ". Try: sudo ncp dash");
    s
}

/// Whether a read error only reports that no packet arrived in time: its lower-cased
/// text mentions `timed out` or `timeout`.
pub open spec fn is_timeout_text(err: Seq<char>) -> bool {
    find_sub(unicode_lower(err), "timed out"@) is Some || find_sub(unicode_lower(err), "timeout"@)
        is Some
}

/// What a failed read of the capture channel reports: nothing for a time-out, else the
/// error `Capture read error: ...`.
pub fn read_error_event(err: &str) -> (r: Option<String>)
    ensures
        match r {
            None => is_timeout_text(err@),
            Some(m) => !is_timeout_text(err@) && m@ == "Capture read error: "@ + err@,
        },
{
    let lower = to_lowercase(err);
    let cs = chars_of(lower.as_str());
    let timed_out = match find_str(&cs, "timed out") {
        Some(_) => true,
        None => match find_str(&cs, "timeout") {
            Some(_) => true,
            None => false,
        },
    };
    if timed_out {
        None
    } else {
        let mut m = to_owned_string("Capture read error: ");
        push_str(&mut m, err);
        Some(m)
    }
}

} // verus!
