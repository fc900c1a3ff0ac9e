//! Diagnostic log lines, rendered as bytes: a severity tag, a wall-clock
//! timestamp, the job number the message is attributed to (the number 0
//! stands for the main thread and is printed as `Main`), and the message,
//! separated by ` - `. Only the timestamp comes from outside; everything
//! around it is assembled and verified here.

use vstd::prelude::*;

verus! {

/// The decimal rendering of a number, most significant digit first, as ASCII
/// bytes.
pub open spec fn dec_spec(n: nat) -> Seq<u8>
    decreases n,
{
    if n < 10 {
        seq![(48 + n) as u8]
    } else {
        dec_spec(n / 10).push((48 + n % 10) as u8)
    }
}

/// Render a number in decimal, matching `dec_spec` exactly.
pub fn dec_bytes(n: usize) -> (r: Vec<u8>)
    ensures
        r@ == dec_spec(n as nat),
    decreases n,
{
    if n < 10 {
        let mut v: Vec<u8> = Vec::new();
        v.push(48 + n as u8);
        proof {
            assert(v@ =~= dec_spec(n as nat));
        }
        v
    } else {
        let mut v = dec_bytes(n / 10);
        v.push(48 + (n % 10) as u8);
        v
    }
}

/// The severity tag: `[EE]` for errors, `[II]` otherwise.
pub open spec fn tag_spec(is_err: bool) -> Seq<u8> {
    if is_err {
        seq![91u8, 69u8, 69u8, 93u8]
    } else {
        seq![91u8, 73u8, 73u8, 93u8]
    }
}

/// The ` - ` separator between the fields of a line.
pub open spec fn sep_spec() -> Seq<u8> {
    seq![32u8, 45u8, 32u8]
}

/// How a job number is shown: job number 0 is the main thread and reads
/// `Main`; any other is shown in decimal.
pub open spec fn jobnum_label_spec(n: nat) -> Seq<u8> {
    if n == 0 {
        seq![77u8, 97u8, 105u8, 110u8]
    } else {
        dec_spec(n)
    }
}

/// One whole log line: tag, timestamp, job attribution and message,
/// ` - `-separated.
pub open spec fn log_line_spec(time: Seq<u8>, msg: Seq<u8>, is_err: bool, jobnum: nat) -> Seq<
    u8,
> {
    tag_spec(is_err) + sep_spec() + time + sep_spec() + jobnum_label_spec(jobnum) + sep_spec()
        + msg
}

/// The attribution field of a line, matching `jobnum_label_spec` exactly.
pub fn jobnum_label(jobnum: usize) -> (r: Vec<u8>)
    ensures
        r@ == jobnum_label_spec(jobnum as nat),
{
    if jobnum == 0 {
        let mut v: Vec<u8> = Vec::new();
        v.push(77);
        v.push(97);
        v.push(105);
        v.push(110);
        proof {
            assert(v@ =~= jobnum_label_spec(0));
        }
        v
    } else {
        dec_bytes(jobnum)
    }
}

/// Assemble one log line from a given timestamp, matching `log_line_spec`
/// exactly.
pub fn log_line(time: &[u8], msg: &[u8], is_err: bool, jobnum: usize) -> (r: Vec<u8>)
    ensures
        r@ == log_line_spec(time@, msg@, is_err, jobnum as nat),
{
    let mut v: Vec<u8> = Vec::new();
    if is_err {
        v.push(91);
        v.push(69);
        v.push(69);
        v.push(93);
    } else {
        v.push(91);
        v.push(73);
        v.push(73);
        v.push(93);
    }
    proof {
        assert(v@ =~= tag_spec(is_err));
    }
    push_sep(&mut v);
    v.extend_from_slice(time);
    proof {
        assert(v@ =~= tag_spec(is_err) + sep_spec() + time@);
    }
    push_sep(&mut v);
    let label = jobnum_label(jobnum);
    v.extend_from_slice(label.as_slice());
    push_sep(&mut v);
    v.extend_from_slice(msg);
    proof {
        assert(v@ =~= log_line_spec(time@, msg@, is_err, jobnum as nat));
    }
    v
}

/// Append the ` - ` separator.
fn push_sep(v: &mut Vec<u8>)
    ensures
        final(v)@ == old(v)@ + sep_spec(),
{
    v.push(32);
    v.push(45);
    v.push(32);
    proof {
        assert(v@ =~= old(v)@ + sep_spec());
    }
}

/// Relies on chrono's `Local::now` and its `format` with `%d/%m/%y %H:%M:%S`:
/// the local wall-clock time rendered with six zero-padded two-digit fields,
/// always 17 bytes. The clock's reading itself is outside anyone's promise.
#[verifier::external_body]
fn now_stamp() -> (r: Vec<u8>)
    ensures
        r@.len() == 17,
{
    chrono::Local::now().format("%d/%m/%y %H:%M:%S").to_string().into_bytes()
}

/// One log line stamped with the wall clock now. Whatever the clock read,
/// the result is a well-formed line around some 17-byte timestamp.
pub fn log_line_now(msg: &[u8], is_err: bool, jobnum: usize) -> (r: Vec<u8>)
    ensures
        exists|time: Seq<u8>|
            time.len() == 17 && r@ == #[trigger] log_line_spec(time, msg@, is_err, jobnum as nat),
{
    let stamp = now_stamp();
    let r = log_line(stamp.as_slice(), msg, is_err, jobnum);
    proof {
        assert(r@ == log_line_spec(stamp@, msg@, is_err, jobnum as nat));
    }
    r
}

} // verus!
