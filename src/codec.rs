//! The byte layout of the account and of the instructions: integers little
//! endian, a string as its UTF-8 byte count (`u32`) and its bytes, a list as
//! its length (`u32`) and its items, an enum as a one-byte variant index, a
//! `bool` as one byte 0 or 1, an `Option` as a tag byte 0 or 1 and the value.
use crate::instruction::{InstructionView, TodoInstruction};
use crate::state::{Task, TaskStatus, TaskView, UserTasks, UserTasksView};
use vstd::bytes::{
    lemma_auto_spec_u32_to_from_le_bytes, lemma_auto_spec_u64_to_from_le_bytes, spec_u32_from_le_bytes,
    spec_u32_to_le_bytes, spec_u64_from_le_bytes, spec_u64_to_le_bytes, u32_from_le_bytes, u32_to_le_bytes,
    u64_from_le_bytes, u64_to_le_bytes,
};
use vstd::prelude::*;
use vstd::utf8::{decode_utf8, decode_utf8_encode_utf8, encode_utf8, encode_utf8_decode_utf8, valid_utf8};

verus! {

// ---------------------------------------------------------------- encoding

pub open spec fn enc_u32(n: u32) -> Seq<u8> {
    spec_u32_to_le_bytes(n)
}

pub open spec fn enc_u64(n: u64) -> Seq<u8> {
    spec_u64_to_le_bytes(n)
}

/// A string fits the layout when its UTF-8 byte count fits a `u32`.
pub open spec fn str_fits(s: Seq<char>) -> bool {
    encode_utf8(s).len() <= u32::MAX
}

pub open spec fn enc_str(s: Seq<char>) -> Seq<u8> {
    enc_u32(encode_utf8(s).len() as u32) + encode_utf8(s)
}

pub open spec fn status_tag(s: TaskStatus) -> u8 {
    match s {
        TaskStatus::Pending => 0,
        TaskStatus::InProgress => 1,
        TaskStatus::Completed => 2,
        TaskStatus::Cancelled => 3,
    }
}

pub open spec fn bool_byte(b: bool) -> u8 {
    if b { 1 } else { 0 }
}

pub open spec fn enc_task(t: TaskView) -> Seq<u8> {
    enc_u64(t.id) + enc_str(t.title) + enc_str(t.description) + seq![status_tag(t.status)]
        + seq![bool_byte(t.completed)] + t.initializer
}

pub open spec fn enc_tasks(ts: Seq<TaskView>) -> Seq<u8>
    decreases ts.len(),
{
    if ts.len() == 0 {
        Seq::empty()
    } else {
        enc_tasks(ts.drop_last()) + enc_task(ts.last())
    }
}

/// A task fits the layout when both its strings do and its key has 32 bytes.
pub open spec fn task_fits(t: TaskView) -> bool {
    str_fits(t.title) && str_fits(t.description) && t.initializer.len() == 32
}

/// A task list fits the layout when its length fits a `u32` and every task fits.
pub open spec fn encodable(u: UserTasksView) -> bool {
    &&& u.tasks.len() <= u32::MAX
    &&& forall|i: int| 0 <= i < u.tasks.len() ==> task_fits(#[trigger] u.tasks[i])
}

pub open spec fn enc_user_tasks(u: UserTasksView) -> Seq<u8> {
    enc_u32(u.tasks.len() as u32) + enc_tasks(u.tasks) + enc_u64(u.next_task_id)
}

fn put_bytes(out: &mut Vec<u8>, b: &[u8])
    ensures
        final(out)@ == old(out)@ + b@,
{
    let mut i: usize = 0;
    while i < b.len()
        invariant
            0 <= i <= b@.len(),
            out@ == old(out)@ + b@.subrange(0, i as int),
        decreases b@.len() - i,
    {
        out.push(b[i]);
        i += 1;
        proof {
            assert(b@.subrange(0, i as int) =~= b@.subrange(0, i - 1) + seq![b@[i - 1]]);
        }
    }
    proof {
        assert(b@.subrange(0, b@.len() as int) =~= b@);
    }
}

fn put_u32(out: &mut Vec<u8>, n: u32)
    ensures
        final(out)@ == old(out)@ + enc_u32(n),
{
    let mut bytes = u32_to_le_bytes(n);
    out.append(&mut bytes);
}

fn put_u64(out: &mut Vec<u8>, n: u64)
    ensures
        final(out)@ == old(out)@ + enc_u64(n),
{
    let mut bytes = u64_to_le_bytes(n);
    out.append(&mut bytes);
}

/// Appends `s` in the layout; `false`, with nothing appended, when it does
/// not fit.
fn put_str(out: &mut Vec<u8>, s: &String) -> (r: bool)
    ensures
        r == str_fits(s@),
        r ==> final(out)@ == old(out)@ + enc_str(s@),
        !r ==> final(out)@ == old(out)@,
{
    let b = s.as_str().as_bytes();
    if b.len() > u32::MAX as usize {
        return false;
    }
    put_u32(out, b.len() as u32);
    put_bytes(out, b);
    proof {
        assert(final(out)@ =~= old(out)@ + enc_str(s@));
    }
    true
}

fn put_task(out: &mut Vec<u8>, t: &Task) -> (r: bool)
    ensures
        r == task_fits(t@),
        r ==> final(out)@ == old(out)@ + enc_task(t@),
{
    put_u64(out, t.id);
    if !put_str(out, &t.title) {
        return false;
    }
    if !put_str(out, &t.description) {
        return false;
    }
    let tag: u8 = match t.status {
        TaskStatus::Pending => 0,
        TaskStatus::InProgress => 1,
        TaskStatus::Completed => 2,
        TaskStatus::Cancelled => 3,
    };
    out.push(tag);
    out.push(if t.completed { 1u8 } else { 0u8 });
    put_bytes(out, t.initializer.as_slice());
    proof {
        assert(final(out)@ =~= old(out)@ + enc_task(t@));
    }
    true
}

/// The account bytes of `u`; `None` when it does not fit the layout.
pub fn encode_user_tasks(u: &UserTasks) -> (r: Option<Vec<u8>>)
    ensures
        r is Some <==> encodable(u@),
        r matches Some(v) ==> v@ == enc_user_tasks(u@),
{
    if u.tasks.len() > u32::MAX as usize {
        return None;
    }
    let mut out: Vec<u8> = Vec::new();
    put_u32(&mut out, u.tasks.len() as u32);
    let mut i: usize = 0;
    while i < u.tasks.len()
        invariant
            0 <= i <= u.tasks@.len() <= u32::MAX,
            out@ == enc_u32(u.tasks@.len() as u32) + enc_tasks(u@.tasks.subrange(0, i as int)),
            forall|j: int| 0 <= j < i ==> task_fits(#[trigger] u@.tasks[j]),
        decreases u.tasks@.len() - i,
    {
        if !put_task(&mut out, &u.tasks[i]) {
            proof {
                assert(!task_fits(u@.tasks[i as int]));
            }
            return None;
        }
        proof {
            let ts = u@.tasks.subrange(0, i + 1);
            assert(ts.drop_last() =~= u@.tasks.subrange(0, i as int));
        }
        i += 1;
    }
    put_u64(&mut out, u.next_task_id);
    proof {
        assert(u@.tasks.subrange(0, i as int) =~= u@.tasks);
    }
    Some(out)
}

// ---------------------------------------------------------------- decoding
//
// Each `parse_*` reads one value at position `p` of `b` and gives it with the
// position just past it, or `None` where the bytes there do not hold one.

pub open spec fn parse_u32(b: Seq<u8>, p: int) -> Option<(u32, int)> {
    if 0 <= p && p + 4 <= b.len() {
        Some((spec_u32_from_le_bytes(b.subrange(p, p + 4)), p + 4))
    } else {
        None
    }
}

pub open spec fn parse_u64(b: Seq<u8>, p: int) -> Option<(u64, int)> {
    if 0 <= p && p + 8 <= b.len() {
        Some((spec_u64_from_le_bytes(b.subrange(p, p + 8)), p + 8))
    } else {
        None
    }
}

pub open spec fn parse_str(b: Seq<u8>, p: int) -> Option<(Seq<char>, int)> {
    match parse_u32(b, p) {
        Some((n, q)) => if q + n <= b.len() && valid_utf8(b.subrange(q, q + n)) {
            Some((decode_utf8(b.subrange(q, q + n)), q + n))
        } else {
            None
        },
        None => None,
    }
}

pub open spec fn parse_status(b: Seq<u8>, p: int) -> Option<(TaskStatus, int)> {
    if 0 <= p < b.len() {
        if b[p] == 0 {
            Some((TaskStatus::Pending, p + 1))
        } else if b[p] == 1 {
            Some((TaskStatus::InProgress, p + 1))
        } else if b[p] == 2 {
            Some((TaskStatus::Completed, p + 1))
        } else if b[p] == 3 {
            Some((TaskStatus::Cancelled, p + 1))
        } else {
            None
        }
    } else {
        None
    }
}

pub open spec fn parse_bool(b: Seq<u8>, p: int) -> Option<(bool, int)> {
    if 0 <= p < b.len() && (b[p] == 0 || b[p] == 1) {
        Some((b[p] == 1, p + 1))
    } else {
        None
    }
}

pub open spec fn parse_key(b: Seq<u8>, p: int) -> Option<(Seq<u8>, int)> {
    if 0 <= p && p + 32 <= b.len() {
        Some((b.subrange(p, p + 32), p + 32))
    } else {
        None
    }
}

pub open spec fn parse_task(b: Seq<u8>, p: int) -> Option<(TaskView, int)> {
    match parse_u64(b, p) {
        None => None,
        Some((id, pos1)) => match parse_str(b, pos1) {
            None => None,
            Some((title, pos2)) => match parse_str(b, pos2) {
                None => None,
                Some((description, pos3)) => match parse_status(b, pos3) {
                    None => None,
                    Some((status, pos4)) => match parse_bool(b, pos4) {
                        None => None,
                        Some((completed, pos5)) => match parse_key(b, pos5) {
                            None => None,
                            Some((initializer, pos6)) => Some(
                                (TaskView { id, title, description, status, completed, initializer }, pos6),
                            ),
                        },
                    },
                },
            },
        },
    }
}

/// `n` tasks one after the other from `p`.
pub open spec fn parse_tasks(b: Seq<u8>, p: int, n: nat) -> Option<(Seq<TaskView>, int)>
    decreases n,
{
    if n == 0 {
        Some((Seq::empty(), p))
    } else {
        match parse_tasks(b, p, (n - 1) as nat) {
            None => None,
            Some((ts, q)) => match parse_task(b, q) {
                None => None,
                Some((t, r)) => Some((ts.push(t), r)),
            },
        }
    }
}

/// The task list that `b` holds, with no byte left over.
pub open spec fn parse_user_tasks(b: Seq<u8>) -> Option<UserTasksView> {
    match parse_u32(b, 0) {
        None => None,
        Some((n, p)) => match parse_tasks(b, p, n as nat) {
            None => None,
            Some((tasks, q)) => match parse_u64(b, q) {
                None => None,
                Some((next_task_id, r)) => if r == b.len() {
                    Some(UserTasksView { tasks, next_task_id })
                } else {
                    None
                },
            },
        },
    }
}

/// Relies on `String::from_utf8`: it accepts exactly the valid UTF-8 byte
/// sequences, and the string it returns holds those bytes.
#[verifier::external_body]
fn utf8_string(bytes: Vec<u8>) -> (r: Option<String>)
    ensures
        r is Some <==> valid_utf8(bytes@),
        r matches Some(s) ==> encode_utf8(s@) == bytes@,
{
    String::from_utf8(bytes).ok()
}

fn read_u32(b: &[u8], p: usize) -> (r: Option<(u32, usize)>)
    ensures
        match parse_u32(b@, p as int) {
            Some((v, q)) => r matches Some((x, e)) && x == v && e == q,
            None => r is None,
        },
{
    if p > b.len() || b.len() - p < 4 {
        return None;
    }
    let v = u32_from_le_bytes(&b[p..p + 4]);
    Some((v, p + 4))
}

fn read_u64(b: &[u8], p: usize) -> (r: Option<(u64, usize)>)
    ensures
        match parse_u64(b@, p as int) {
            Some((v, q)) => r matches Some((x, e)) && x == v && e == q,
            None => r is None,
        },
{
    if p > b.len() || b.len() - p < 8 {
        return None;
    }
    let v = u64_from_le_bytes(&b[p..p + 8]);
    Some((v, p + 8))
}

fn read_str(b: &[u8], p: usize) -> (r: Option<(String, usize)>)
    ensures
        match parse_str(b@, p as int) {
            Some((v, q)) => r matches Some((s, e)) && s@ == v && e == q,
            None => r is None,
        },
{
    let (n, q) = match read_u32(b, p) {
        Some(x) => x,
        None => return None,
    };
    if q > b.len() || b.len() - q < n as usize {
        return None;
    }
    let end = q + n as usize;
    let bytes = vstd::slice::slice_to_vec(&b[q..end]);
    match utf8_string(bytes) {
        Some(s) => {
            proof {
                encode_utf8_decode_utf8(s@);
            }
            Some((s, end))
        },
        None => None,
    }
}

fn read_status(b: &[u8], p: usize) -> (r: Option<(TaskStatus, usize)>)
    ensures
        match parse_status(b@, p as int) {
            Some((v, q)) => r matches Some((x, e)) && x == v && e == q,
            None => r is None,
        },
{
    if p >= b.len() {
        return None;
    }
    let tag = b[p];
    if tag == 0 {
        Some((TaskStatus::Pending, p + 1))
    } else if tag == 1 {
        Some((TaskStatus::InProgress, p + 1))
    } else if tag == 2 {
        Some((TaskStatus::Completed, p + 1))
    } else if tag == 3 {
        Some((TaskStatus::Cancelled, p + 1))
    } else {
        None
    }
}

fn read_bool(b: &[u8], p: usize) -> (r: Option<(bool, usize)>)
    ensures
        match parse_bool(b@, p as int) {
            Some((v, q)) => r matches Some((x, e)) && x == v && e == q,
            None => r is None,
        },
{
    if p >= b.len() || b[p] > 1 {
        return None;
    }
    Some((b[p] == 1, p + 1))
}

fn read_key(b: &[u8], p: usize) -> (r: Option<([u8; 32], usize)>)
    ensures
        match parse_key(b@, p as int) {
            Some((v, q)) => r matches Some((k, e)) && k@ == v && e == q,
            None => r is None,
        },
{
    if p > b.len() || b.len() - p < 32 {
        return None;
    }
    let mut k: [u8; 32] = [0u8; 32];
    let mut i: usize = 0;
    while i < 32
        invariant
            0 <= i <= 32,
            p + 32 <= b.len(),
            forall|j: int| 0 <= j < i ==> k@[j] == b@[p + j],
        decreases 32 - i,
    {
        k[i] = b[p + i];
        i += 1;
    }
    proof {
        assert(k@ =~= b@.subrange(p as int, p + 32));
    }
    Some((k, p + 32))
}

fn read_task(b: &[u8], p: usize) -> (r: Option<(Task, usize)>)
    ensures
        match parse_task(b@, p as int) {
            Some((v, q)) => r matches Some((t, e)) && t@ == v && e == q,
            None => r is None,
        },
{
    let (id, pos1) = match read_u64(b, p) {
        Some(x) => x,
        None => return None,
    };
    let (title, pos2) = match read_str(b, pos1) {
        Some(x) => x,
        None => return None,
    };
    let (description, pos3) = match read_str(b, pos2) {
        Some(x) => x,
        None => return None,
    };
    let (status, pos4) = match read_status(b, pos3) {
        Some(x) => x,
        None => return None,
    };
    let (completed, pos5) = match read_bool(b, pos4) {
        Some(x) => x,
        None => return None,
    };
    let (initializer, pos6) = match read_key(b, pos5) {
        Some(x) => x,
        None => return None,
    };
    Some((Task { id, title, description, status, completed, initializer }, pos6))
}

/// Once the tasks from `p` fail to parse, more of them fail too.
proof fn lemma_parse_tasks_fails(b: Seq<u8>, p: int, m: nat, n: nat)
    requires
        m <= n,
        parse_tasks(b, p, m) is None,
    ensures
        parse_tasks(b, p, n) is None,
    decreases n - m,
{
    if m < n {
        lemma_parse_tasks_fails(b, p, m, (n - 1) as nat);
    }
}

/// The task list held by the account bytes `b`, with no byte left over;
/// `None` when `b` does not hold one.
pub fn decode_user_tasks(b: &[u8]) -> (r: Option<UserTasks>)
    ensures
        match parse_user_tasks(b@) {
            Some(v) => r matches Some(u) && u@ == v,
            None => r is None,
        },
{
    let (n, pos0) = match read_u32(b, 0) {
        Some(x) => x,
        None => return None,
    };
    let mut tasks: Vec<Task> = Vec::new();
    let mut p: usize = pos0;
    let mut i: u32 = 0;
    while i < n
        invariant
            0 <= i <= n,
            parse_u32(b@, 0) == Some((n, pos0 as int)),
            parse_tasks(b@, pos0 as int, i as nat) == Some((tasks@.map_values(|t: Task| t@), p as int)),
        decreases n - i,
    {
        match read_task(b, p) {
            Some((t, q)) => {
                proof {
                    assert(tasks@.push(t).map_values(|t: Task| t@) =~= tasks@.map_values(|t: Task| t@).push(t@));
                }
                tasks.push(t);
                p = q;
            },
            None => {
                proof {
                    lemma_parse_tasks_fails(b@, pos0 as int, (i + 1) as nat, n as nat);
                }
                return None;
            },
        }
        i += 1;
    }
    let (next_task_id, end) = match read_u64(b, p) {
        Some(x) => x,
        None => return None,
    };
    if end != b.len() {
        return None;
    }
    Some(UserTasks { tasks, next_task_id })
}

pub open spec fn parse_opt_str(b: Seq<u8>, p: int) -> Option<(Option<Seq<char>>, int)> {
    if 0 <= p < b.len() && b[p] == 0 {
        Some((None, p + 1))
    } else if 0 <= p < b.len() && b[p] == 1 {
        match parse_str(b, p + 1) {
            Some((s, q)) => Some((Some(s), q)),
            None => None,
        }
    } else {
        None
    }
}

/// The instruction after its variant byte at `p`.
pub open spec fn parse_instruction_body(b: Seq<u8>, tag: u8, p: int) -> Option<(InstructionView, int)> {
    if tag == 0 {
        match parse_str(b, p) {
            None => None,
            Some((title, pos1)) => match parse_str(b, pos1) {
                None => None,
                Some((description, pos2)) => Some((InstructionView::CreateTask { title, description }, pos2)),
            },
        }
    } else if tag == 1 {
        match parse_u64(b, p) {
            None => None,
            Some((id, pos1)) => match parse_opt_str(b, pos1) {
                None => None,
                Some((title, pos2)) => match parse_opt_str(b, pos2) {
                    None => None,
                    Some((description, pos3)) => Some(
                        (InstructionView::UpdateTask { id, title, description }, pos3),
                    ),
                },
            },
        }
    } else if tag == 2 {
        match parse_u64(b, p) {
            None => None,
            Some((id, pos1)) => Some((InstructionView::DeleteTask { id }, pos1)),
        }
    } else if tag == 3 {
        match parse_u64(b, p) {
            None => None,
            Some((id, pos1)) => Some((InstructionView::ToggleTask { id }, pos1)),
        }
    } else {
        None
    }
}

/// The instruction that `b` holds, with no byte left over.
pub open spec fn parse_instruction(b: Seq<u8>) -> Option<InstructionView> {
    if b.len() == 0 {
        None
    } else {
        match parse_instruction_body(b, b[0], 1) {
            Some((i, q)) => if q == b.len() {
                Some(i)
            } else {
                None
            },
            None => None,
        }
    }
}

fn read_opt_str(b: &[u8], p: usize) -> (r: Option<(Option<String>, usize)>)
    ensures
        match parse_opt_str(b@, p as int) {
            Some((v, q)) => r matches Some((x, e)) && crate::instruction::opt_str_view(x) == v && e == q,
            None => r is None,
        },
{
    if p >= b.len() {
        return None;
    }
    if b[p] == 0 {
        Some((None, p + 1))
    } else if b[p] == 1 {
        match read_str(b, p + 1) {
            Some((s, q)) => Some((Some(s), q)),
            None => None,
        }
    } else {
        None
    }
}

/// The instruction held by `b`, with no byte left over; `None` when `b` does
/// not hold one.
pub fn decode_instruction(b: &[u8]) -> (r: Option<TodoInstruction>)
    ensures
        match parse_instruction(b@) {
            Some(v) => r matches Some(i) && i@ == v,
            None => r is None,
        },
{
    if b.len() == 0 {
        return None;
    }
    let tag = b[0];
    let (ix, end) = if tag == 0 {
        let (title, pos1) = match read_str(b, 1) {
            Some(x) => x,
            None => return None,
        };
        let (description, pos2) = match read_str(b, pos1) {
            Some(x) => x,
            None => return None,
        };
        (TodoInstruction::CreateTask { title, description }, pos2)
    } else if tag == 1 {
        let (id, pos1) = match read_u64(b, 1) {
            Some(x) => x,
            None => return None,
        };
        let (title, pos2) = match read_opt_str(b, pos1) {
            Some(x) => x,
            None => return None,
        };
        let (description, pos3) = match read_opt_str(b, pos2) {
            Some(x) => x,
            None => return None,
        };
        (TodoInstruction::UpdateTask { id, title, description }, pos3)
    } else if tag == 2 {
        let (id, pos1) = match read_u64(b, 1) {
            Some(x) => x,
            None => return None,
        };
        (TodoInstruction::DeleteTask { id }, pos1)
    } else if tag == 3 {
        let (id, pos1) = match read_u64(b, 1) {
            Some(x) => x,
            None => return None,
        };
        (TodoInstruction::ToggleTask { id }, pos1)
    } else {
        return None;
    };
    if end != b.len() {
        return None;
    }
    Some(ix)
}

// ---------------------------------------------------------------- round trip

proof fn lemma_parse_str_bytes(b: Seq<u8>, p: int)
    requires
        parse_str(b, p) is Some,
    ensures
        parse_str(b, p) matches Some((s, q)) && p <= q <= b.len() && str_fits(s)
            && b.subrange(p, q) == enc_str(s),
{
    lemma_auto_spec_u32_to_from_le_bytes();
    let (n, q) = parse_u32(b, p).unwrap();
    let body = b.subrange(q, q + n);
    decode_utf8_encode_utf8(body);
    let s = decode_utf8(body);
    assert(b.subrange(p, q) =~= b.subrange(p, p + 4));
    assert(b.subrange(p, q + n) =~= b.subrange(p, q) + body);
}

proof fn lemma_parse_task_bytes(b: Seq<u8>, p: int)
    requires
        parse_task(b, p) is Some,
    ensures
        parse_task(b, p) matches Some((t, q)) && p <= q <= b.len() && task_fits(t)
            && b.subrange(p, q) == enc_task(t),
{
    lemma_auto_spec_u64_to_from_le_bytes();
    let (id, pos1) = parse_u64(b, p).unwrap();
    lemma_parse_str_bytes(b, pos1);
    let (title, pos2) = parse_str(b, pos1).unwrap();
    lemma_parse_str_bytes(b, pos2);
    let (description, pos3) = parse_str(b, pos2).unwrap();
    let (t, q) = parse_task(b, p).unwrap();
    assert(b.subrange(p, pos1) == enc_u64(id));
    assert(b.subrange(pos3, pos3 + 1) =~= seq![status_tag(t.status)]);
    assert(b.subrange(pos3 + 1, pos3 + 2) =~= seq![bool_byte(t.completed)]);
    assert(b.subrange(p, q) =~= b.subrange(p, pos1) + b.subrange(pos1, pos2) + b.subrange(pos2, pos3) + b.subrange(
        pos3,
        pos3 + 1,
    ) + b.subrange(pos3 + 1, pos3 + 2) + b.subrange(pos3 + 2, q));
}

proof fn lemma_parse_tasks_bytes(b: Seq<u8>, p: int, n: nat)
    requires
        0 <= p <= b.len(),
        parse_tasks(b, p, n) is Some,
    ensures
        parse_tasks(b, p, n) matches Some((ts, q)) && p <= q <= b.len() && ts.len() == n
            && (forall|i: int| 0 <= i < ts.len() ==> task_fits(#[trigger] ts[i]))
            && b.subrange(p, q) == enc_tasks(ts),
    decreases n,
{
    if n == 0 {
        assert(b.subrange(p, p) =~= Seq::<u8>::empty());
    } else {
        lemma_parse_tasks_bytes(b, p, (n - 1) as nat);
        let (ts0, q0) = parse_tasks(b, p, (n - 1) as nat).unwrap();
        lemma_parse_task_bytes(b, q0);
        let (ts, q) = parse_tasks(b, p, n).unwrap();
        assert(ts.drop_last() =~= ts0);
        assert(b.subrange(p, q) =~= b.subrange(p, q0) + b.subrange(q0, q));
    }
}

/// Bytes that decode to a task list are exactly the encoding of that list:
/// encoding what was decoded gives the same bytes back.
pub proof fn lemma_decode_encode(b: Seq<u8>)
    requires
        parse_user_tasks(b) is Some,
    ensures
        encodable(parse_user_tasks(b)->Some_0),
        enc_user_tasks(parse_user_tasks(b)->Some_0) == b,
{
    lemma_auto_spec_u32_to_from_le_bytes();
    lemma_auto_spec_u64_to_from_le_bytes();
    let (n, p) = parse_u32(b, 0).unwrap();
    lemma_parse_tasks_bytes(b, p, n as nat);
    let (ts, q) = parse_tasks(b, p, n as nat).unwrap();
    let u = parse_user_tasks(b)->Some_0;
    assert(b.subrange(0, p) == enc_u32(n));
    assert(b.subrange(q, q + 8) == enc_u64(u.next_task_id));
    assert(b =~= b.subrange(0, p) + b.subrange(p, q) + b.subrange(q, q + 8));
}

/// `b` holds the bytes `e` from position `p` on.
pub open spec fn holds_at(b: Seq<u8>, p: int, e: Seq<u8>) -> bool {
    0 <= p && p + e.len() <= b.len() && b.subrange(p, p + e.len()) == e
}

proof fn lemma_holds_split(b: Seq<u8>, p: int, e1: Seq<u8>, e2: Seq<u8>)
    requires
        holds_at(b, p, e1 + e2),
    ensures
        holds_at(b, p, e1),
        holds_at(b, p + e1.len(), e2),
{
    let whole = b.subrange(p, p + (e1 + e2).len());
    assert(whole == e1 + e2);
    assert(b.subrange(p, p + e1.len()) =~= whole.subrange(0, e1.len() as int));
    assert(whole.subrange(0, e1.len() as int) =~= e1);
    assert(b.subrange(p + e1.len(), p + e1.len() + e2.len()) =~= whole.subrange(
        e1.len() as int,
        whole.len() as int,
    ));
    assert(whole.subrange(e1.len() as int, whole.len() as int) =~= e2);
}

proof fn lemma_str_parses(b: Seq<u8>, p: int, s: Seq<char>)
    requires
        str_fits(s),
        holds_at(b, p, enc_str(s)),
    ensures
        parse_str(b, p) == Some((s, p + enc_str(s).len())),
{
    lemma_auto_spec_u32_to_from_le_bytes();
    encode_utf8_decode_utf8(s);
    vstd::utf8::encode_utf8_valid_utf8(s);
    let n = encode_utf8(s).len() as u32;
    lemma_holds_split(b, p, enc_u32(n), encode_utf8(s));
}

proof fn lemma_task_parses(b: Seq<u8>, p: int, t: TaskView)
    requires
        task_fits(t),
        holds_at(b, p, enc_task(t)),
    ensures
        parse_task(b, p) == Some((t, p + enc_task(t).len())),
{
    lemma_auto_spec_u64_to_from_le_bytes();
    let e0 = enc_u64(t.id);
    let e1 = enc_str(t.title);
    let e2 = enc_str(t.description);
    let e3 = seq![status_tag(t.status)];
    let e4 = seq![bool_byte(t.completed)];
    let e5 = t.initializer;
    assert(enc_task(t) == e0 + e1 + e2 + e3 + e4 + e5);
    lemma_holds_split(b, p, e0 + e1 + e2 + e3 + e4, e5);
    lemma_holds_split(b, p, e0 + e1 + e2 + e3, e4);
    lemma_holds_split(b, p, e0 + e1 + e2, e3);
    lemma_holds_split(b, p, e0 + e1, e2);
    lemma_holds_split(b, p, e0, e1);
    lemma_str_parses(b, p + 8, t.title);
    lemma_str_parses(b, p + 8 + e1.len(), t.description);
    let pos3 = p + 8 + e1.len() + e2.len();
    assert(b[pos3] == b.subrange(pos3, pos3 + 1)[0]);
    assert(b[pos3 + 1] == b.subrange(pos3 + 1, pos3 + 2)[0]);
    let (x, _) = parse_task(b, p).unwrap();
    assert(x.status == t.status);
    assert(x.initializer =~= t.initializer);
}

proof fn lemma_tasks_parse(b: Seq<u8>, p: int, ts: Seq<TaskView>)
    requires
        forall|i: int| 0 <= i < ts.len() ==> task_fits(#[trigger] ts[i]),
        holds_at(b, p, enc_tasks(ts)),
    ensures
        parse_tasks(b, p, ts.len()) == Some((ts, p + enc_tasks(ts).len())),
    decreases ts.len(),
{
    if ts.len() == 0 {
        assert(ts =~= Seq::<TaskView>::empty());
    } else {
        let init = ts.drop_last();
        lemma_holds_split(b, p, enc_tasks(init), enc_task(ts.last()));
        assert forall|i: int| 0 <= i < init.len() implies task_fits(#[trigger] init[i]) by {
            assert(init[i] == ts[i]);
        }
        lemma_tasks_parse(b, p, init);
        assert(task_fits(ts[ts.len() - 1]));
        lemma_task_parses(b, p + enc_tasks(init).len(), ts.last());
        assert(init.push(ts.last()) =~= ts);
    }
}

/// Every task list that fits the layout decodes from its own encoding.
pub proof fn lemma_encode_decode(u: UserTasksView)
    requires
        encodable(u),
    ensures
        parse_user_tasks(enc_user_tasks(u)) == Some(u),
{
    lemma_auto_spec_u32_to_from_le_bytes();
    lemma_auto_spec_u64_to_from_le_bytes();
    let b = enc_user_tasks(u);
    let e0 = enc_u32(u.tasks.len() as u32);
    let e1 = enc_tasks(u.tasks);
    let e2 = enc_u64(u.next_task_id);
    assert(b.subrange(0, b.len() as int) =~= b);
    lemma_holds_split(b, 0, e0 + e1, e2);
    lemma_holds_split(b, 0, e0, e1);
    lemma_tasks_parse(b, 4, u.tasks);
}

} // verus!
