//! The decisions behind talking to the mouse: which HID collection of the
//! composite device to open, and what report to send it. The handles and the
//! system calls themselves stay at the edge of the program.
use vstd::prelude::*;
use crate::config::{Method, Protocol};
use crate::text::{decimal, hex4, push_decimal, push_hex4};

verus! {

broadcast use vstd::string::group_string_axioms;

/// A single HID collection that matched the target vendor and product id.
#[derive(Clone, Debug)]
pub struct Candidate {
    /// Null terminated device path, ready for CreateFileW.
    pub path: Vec<u16>,
    pub usage_page: u16,
    pub usage: u16,
    pub feature_len: usize,
    pub output_len: usize,
}

/// A collection can be written to when it has a feature or an output report.
pub open spec fn writable(c: Candidate) -> bool {
    c.feature_len > 0 || c.output_len > 0
}

/// The collection the protocol asks for: usage page and usage match where the
/// protocol sets them (0 disables either filter), and it can be written to.
pub open spec fn wanted(p: Protocol, c: Candidate) -> bool {
    &&& (p.usage_page == 0 || c.usage_page == p.usage_page)
    &&& (p.usage == 0 || c.usage == p.usage)
    &&& writable(c)
}

/// The message for a device that is not there at all.
pub open spec fn no_device_message(vid: u16, pid: u16) -> Seq<char> {
    "no device found for vid "@ + hex4(vid) + " pid "@ + hex4(pid)
        + ". Is the dongle plugged in?"@
}

/// The message for a device with no collection that takes reports.
pub open spec fn not_writable_message() -> Seq<char> {
    "found the device but no writable HID collection"@
}

/// Which collection [`choose_collection`] picks: the first one the protocol
/// asks for, or failing that the first writable one.
pub open spec fn chosen(p: Protocol, cs: Seq<Candidate>, i: int) -> bool {
    &&& 0 <= i < cs.len()
    &&& if exists|j: int| 0 <= j < cs.len() && wanted(p, #[trigger] cs[j]) {
        wanted(p, cs[i]) && forall|j: int| 0 <= j < i ==> !wanted(p, #[trigger] cs[j])
    } else {
        writable(cs[i]) && forall|j: int| 0 <= j < i ==> !writable(#[trigger] cs[j])
    }
}

/// Pick the collection to open among those matching the vendor and product.
///
/// The composite device exposes several vendor collections, and a decoy with
/// the same usage page but no writable report can come first, so requiring a
/// writable report is part of the match.
pub fn choose_collection(proto: &Protocol, candidates: &Vec<Candidate>) -> (r: Result<usize, String>)
    ensures
        match r {
            Ok(i) => chosen(*proto, candidates@, i as int),
            Err(m) => if candidates@.len() == 0 {
                m@ == no_device_message(proto.vid, proto.pid)
            } else {
                &&& forall|j: int| 0 <= j < candidates@.len() ==> !writable(#[trigger] candidates@[j])
                &&& m@ == not_writable_message()
            },
        },
        r is Err <==> forall|j: int| 0 <= j < candidates@.len() ==> !writable(#[trigger] candidates@[j]),
        match r {
            Ok(i) => (exists|j: int|
                0 <= j < candidates@.len() && (#[trigger] candidates@[j].feature_len > 0
                    || candidates@[j].output_len > 0) && (proto.usage_page == 0
                    || candidates@[j].usage_page == proto.usage_page) && (proto.usage == 0
                    || candidates@[j].usage == proto.usage)) ==> (proto.usage == 0
                || candidates@[i as int].usage == proto.usage) && (proto.usage_page == 0
                || candidates@[i as int].usage_page == proto.usage_page),
            Err(_) => true,
        },
{
    let n = candidates.len();
    if n == 0 {
        let mut m = String::new();
        m.append("no device found for vid ");
        push_hex4(&mut m, proto.vid);
        m.append(" pid ");
        push_hex4(&mut m, proto.pid);
        m.append(". Is the dongle plugged in?");
        assert(m@ =~= no_device_message(proto.vid, proto.pid));
        return Err(m);
    }
    let mut i: usize = 0;
    while i < n
        invariant
            n == candidates@.len(),
            i <= n,
            forall|j: int| 0 <= j < i ==> !wanted(*proto, #[trigger] candidates@[j]),
        decreases n - i,
    {
        let c = &candidates[i];
        if (proto.usage_page == 0 || c.usage_page == proto.usage_page) && (proto.usage == 0
            || c.usage == proto.usage) && (c.feature_len > 0 || c.output_len > 0) {
            proof {
                lemma_chosen_honours_filters(*proto, candidates@, i as int);
            }
            return Ok(i);
        }
        i = i + 1;
    }
    let mut k: usize = 0;
    while k < n
        invariant
            n == candidates@.len(),
            k <= n,
            forall|j: int| 0 <= j < n ==> !wanted(*proto, #[trigger] candidates@[j]),
            forall|j: int| 0 <= j < k ==> !writable(#[trigger] candidates@[j]),
        decreases n - k,
    {
        let c = &candidates[k];
        if c.feature_len > 0 || c.output_len > 0 {
            proof {
                assert(!(exists|j: int| 0 <= j < n && wanted(*proto, #[trigger] candidates@[j])));
                lemma_chosen_honours_filters(*proto, candidates@, k as int);
            }
            return Ok(k);
        }
        k = k + 1;
    }
    let mut m = String::new();
    m.append("found the device but no writable HID collection");
    Err(m)
}

/// The length of the report sent. A forced length (`report_length` above 0)
/// is the length, whatever the command's. Otherwise it is the device's report
/// length for the method, raised to the command's length when the command is
/// longer or the device has no such report.
pub open spec fn report_len(
    method: Method,
    report_length: usize,
    feature_len: usize,
    output_len: usize,
    command_len: nat,
) -> nat {
    if report_length > 0 {
        report_length as nat
    } else {
        let t = match method {
            Method::Feature => feature_len as nat,
            Method::Output => output_len as nat,
        };
        if t > command_len {
            t
        } else {
            command_len
        }
    }
}

/// The report sent: the command, zero padded or cut to the report length.
pub open spec fn report_spec(
    method: Method,
    report_length: usize,
    feature_len: usize,
    output_len: usize,
    command: Seq<u8>,
) -> Seq<u8> {
    Seq::new(
        report_len(method, report_length, feature_len, output_len, command.len()),
        |i: int| if i < command.len() { command[i] } else { 0u8 },
    )
}

/// The bytes to hand the device for one command, padded (or, for a forced
/// length, cut) to the report size.
/// `feature_len` and `output_len` are the report lengths of the opened
/// collection.
pub fn report_bytes(
    method: Method,
    report_length: usize,
    feature_len: usize,
    output_len: usize,
    command: &[u8],
) -> (r: Result<Vec<u8>, String>)
    ensures
        match r {
            Ok(b) => command@.len() > 0 && b@ == report_spec(
                method,
                report_length,
                feature_len,
                output_len,
                command@,
            ),
            Err(m) => command@.len() == 0 && m@ == "command is empty"@,
        },
{
    if command.len() == 0 {
        let mut m = String::new();
        m.append("command is empty");
        return Err(m);
    }
    let len = if report_length > 0 {
        report_length
    } else {
        let t = match method {
            Method::Feature => feature_len,
            Method::Output => output_len,
        };
        if t > command.len() {
            t
        } else {
            command.len()
        }
    };
    let ghost want = report_spec(method, report_length, feature_len, output_len, command@);
    let mut buffer: Vec<u8> = Vec::new();
    let mut i: usize = 0;
    while i < len
        invariant
            i <= len,
            len == want.len(),
            buffer@ == want.take(i as int),
            want == report_spec(method, report_length, feature_len, output_len, command@),
        decreases len - i,
    {
        let b: u8 = if i < command.len() {
            command[i]
        } else {
            0
        };
        buffer.push(b);
        assert(buffer@ =~= want.take(i + 1));
        i = i + 1;
    }
    assert(want.take(len as int) =~= want);
    Ok(buffer)
}

/// The collection picked honours the protocol's filters whenever any writable
/// collection does: when some writable candidate has the usage page and usage
/// the protocol sets (0 leaving either open), the pick is writable, has them
/// too, and no earlier candidate qualified. Otherwise the pick is simply the
/// first writable one.
pub proof fn lemma_chosen_honours_filters(p: Protocol, cs: Seq<Candidate>, i: int)
    requires
        chosen(p, cs, i),
    ensures
        cs[i].feature_len > 0 || cs[i].output_len > 0,
        (exists|j: int|
            0 <= j < cs.len() && (#[trigger] cs[j].feature_len > 0 || cs[j].output_len > 0) && (
            p.usage_page == 0 || cs[j].usage_page == p.usage_page) && (p.usage == 0 || cs[j].usage
                == p.usage)) ==> {
            &&& p.usage == 0 || cs[i].usage == p.usage
            &&& p.usage_page == 0 || cs[i].usage_page == p.usage_page
            &&& forall|j: int|
                0 <= j < i ==> !((#[trigger] cs[j].feature_len > 0 || cs[j].output_len > 0) && (
                p.usage_page == 0 || cs[j].usage_page == p.usage_page) && (p.usage == 0
                    || cs[j].usage == p.usage))
        },
{
    if exists|j: int|
        0 <= j < cs.len() && (#[trigger] cs[j].feature_len > 0 || cs[j].output_len > 0) && (
        p.usage_page == 0 || cs[j].usage_page == p.usage_page) && (p.usage == 0 || cs[j].usage
            == p.usage) {
        let j = choose|j: int|
            0 <= j < cs.len() && (#[trigger] cs[j].feature_len > 0 || cs[j].output_len > 0) && (
            p.usage_page == 0 || cs[j].usage_page == p.usage_page) && (p.usage == 0 || cs[j].usage
                == p.usage);
        assert(wanted(p, cs[j]));
        assert forall|k: int| 0 <= k < i implies !((#[trigger] cs[k].feature_len > 0
            || cs[k].output_len > 0) && (p.usage_page == 0 || cs[k].usage_page == p.usage_page) && (
        p.usage == 0 || cs[k].usage == p.usage)) by {
            assert(!wanted(p, cs[k]));
        }
    }
}

/// The chosen collection can always be written to, so a decoy collection with
/// no writable report is never opened.
pub proof fn lemma_chosen_is_writable(p: Protocol, cs: Seq<Candidate>, i: int)
    requires
        chosen(p, cs, i),
    ensures
        writable(cs[i]),
{
}

/// The shape of a report. A forced length gives a report exactly that long:
/// the command's first bytes, zero padded when the command is shorter. With no
/// forced length the report starts with the whole command, is at least as long
/// as the device's report for the method, and is zero after the command.
pub proof fn lemma_report_shape(
    method: Method,
    report_length: usize,
    feature_len: usize,
    output_len: usize,
    command: Seq<u8>,
)
    ensures
        ({
            let r = report_spec(method, report_length, feature_len, output_len, command);
            let cap = match method {
                Method::Feature => feature_len,
                Method::Output => output_len,
            };
            &&& forall|i: int| command.len() <= i < r.len() ==> r[i] == 0
            &&& report_length > 0 ==> r.len() == report_length
            &&& report_length > 0 && report_length <= command.len() ==> r == command.take(
                report_length as int,
            )
            &&& report_length > 0 && report_length > command.len() ==> r.take(
                command.len() as int,
            ) == command
            &&& report_length == 0 ==> r.len() >= command.len() && r.len() >= cap && r.take(
                command.len() as int,
            ) == command
            &&& report_length == 0 && cap > command.len() ==> r.len() == cap
        }),
{
    let r = report_spec(method, report_length, feature_len, output_len, command);
    if r.len() >= command.len() {
        assert(r.take(command.len() as int) =~= command);
    } else {
        assert(r =~= command.take(report_length as int));
    }
}

/// One line of the device listing, numbered from 1.
pub open spec fn collection_line(number: nat, c: Candidate) -> Seq<char> {
    decimal(number) + ". usage_page "@ + hex4(c.usage_page) + " usage "@ + hex4(c.usage)
        + " feature_len "@ + decimal(c.feature_len as nat) + " output_len "@ + decimal(
        c.output_len as nat,
    ) + "\n"@
}

/// The listing lines of all collections, in order.
pub open spec fn collection_lines(cs: Seq<Candidate>) -> Seq<char>
    decreases cs.len(),
{
    if cs.len() == 0 {
        Seq::empty()
    } else {
        collection_lines(cs.drop_last()) + collection_line(cs.len(), cs.last())
    }
}

/// The diagnostic listing of the HID collections found for a device.
pub open spec fn device_listing(vid: u16, pid: u16, cs: Seq<Candidate>) -> Seq<char> {
    "vid "@ + hex4(vid) + " pid "@ + hex4(pid) + "\nfound "@ + decimal(cs.len())
        + " HID collection(s):\n\n"@ + collection_lines(cs)
}

fn push_collection_line(out: &mut String, number: u64, c: &Candidate)
    ensures
        final(out)@ == old(out)@ + collection_line(number as nat, *c),
{
    push_decimal(out, number);
    out.append(". usage_page ");
    push_hex4(out, c.usage_page);
    out.append(" usage ");
    push_hex4(out, c.usage);
    out.append(" feature_len ");
    push_decimal(out, c.feature_len as u64);
    out.append(" output_len ");
    push_decimal(out, c.output_len as u64);
    out.append("\n");
    assert(out@ =~= old(out)@ + collection_line(number as nat, *c));
}

/// The text of the device diagnostic: vendor and product, how many
/// collections were found, and one line per collection.
pub fn device_report(vid: u16, pid: u16, candidates: &Vec<Candidate>) -> (r: String)
    ensures
        r@ == device_listing(vid, pid, candidates@),
{
    let mut out = String::new();
    out.append("vid ");
    push_hex4(&mut out, vid);
    out.append(" pid ");
    push_hex4(&mut out, pid);
    out.append("\nfound ");
    push_decimal(&mut out, candidates.len() as u64);
    out.append(" HID collection(s):\n\n");
    let ghost head = out@;
    assert(head + collection_lines(candidates@.take(0)) =~= head);
    let mut i: usize = 0;
    while i < candidates.len()
        invariant
            i <= candidates@.len(),
            out@ == head + collection_lines(candidates@.take(i as int)),
        decreases candidates@.len() - i,
    {
        push_collection_line(&mut out, i as u64 + 1, &candidates[i]);
        assert(candidates@.take(i + 1).drop_last() =~= candidates@.take(i as int));
        assert(out@ =~= head + collection_lines(candidates@.take(i + 1)));
        i = i + 1;
    }
    assert(candidates@.take(candidates@.len() as int) =~= candidates@);
    assert(out@ =~= device_listing(vid, pid, candidates@));
    out
}

} // verus!
