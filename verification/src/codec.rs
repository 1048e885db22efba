//! The persisted form of a task manager: a field-named, human-readable
//! text encoding, with a verified encoder and decoder and a proof that
//! reading back what was written restores the manager exactly.

use vstd::prelude::*;

use crate::manager::{ManagerView, TaskManager};
use crate::numbers::{all_digits, dec_rep, dec_val, digit_val, is_digit, is_digit_char,
    lemma_dec_rep_val, lemma_dec_val_nonneg, lemma_dec_val_prefix_le, u64_to_string,
    usize_to_string};
use crate::strutil::string_push;
use crate::task::{Task, TaskStatus, TaskView};

verus! {

/// How one character appears inside a quoted label: quotes and
/// backslashes carry a backslash escape, all else stands as itself.
pub open spec fn esc_char(c: char) -> Seq<char> {
    if c == '"' || c == '\\' {
        seq!['\\', c]
    } else {
        seq![c]
    }
}

/// How a label appears inside its quotes.
pub open spec fn spec_escape(s: Seq<char>) -> Seq<char>
    decreases s.len(),
{
    if s.len() == 0 {
        Seq::empty()
    } else {
        esc_char(s[0]) + spec_escape(s.drop_first())
    }
}

/// Escaping one more character at the end appends its escape.
pub proof fn lemma_escape_push(s: Seq<char>, c: char)
    ensures
        spec_escape(s.push(c)) == spec_escape(s) + esc_char(c),
    decreases s.len(),
{
    if s.len() == 0 {
        assert(s.push(c) =~= seq![c]);
        assert(s.push(c)[0] == c);
        assert(s.push(c).drop_first() =~= Seq::<char>::empty());
        assert(spec_escape(Seq::<char>::empty()) == Seq::<char>::empty());
        assert(spec_escape(s) == Seq::<char>::empty());
        assert(spec_escape(s.push(c)) == esc_char(c) + spec_escape(Seq::<char>::empty()));
        assert(spec_escape(s.push(c)) =~= spec_escape(s) + esc_char(c));
    } else {
        assert(s.push(c).drop_first() =~= s.drop_first().push(c));
        lemma_escape_push(s.drop_first(), c);
        assert(s.push(c)[0] == s[0]);
        assert(spec_escape(s.push(c)) =~= spec_escape(s) + esc_char(c));
    }
}

/// The text of a signed number.
pub open spec fn spec_enc_int(i: int) -> Seq<char> {
    if i < 0 {
        seq!['-'] + dec_rep(-i)
    } else {
        dec_rep(i)
    }
}

/// The text of an optional number: `null` when absent.
pub open spec fn spec_enc_opt_int(o: Option<int>) -> Seq<char> {
    match o {
        None => "null"@,
        Some(i) => spec_enc_int(i),
    }
}

/// The stored name of each status.
pub open spec fn spec_status_name(s: TaskStatus) -> Seq<char> {
    match s {
        TaskStatus::Running => "Running"@,
        TaskStatus::Paused => "Paused"@,
        TaskStatus::Completed => "Completed"@,
    }
}

/// The stored form of one task: an object with one field per datum.
pub open spec fn spec_enc_task(t: TaskView) -> Seq<char> {
    "{\"label\":\""@ + spec_escape(t.label) + "\",\"status\":\""@ + spec_status_name(t.status)
        + "\",\"created_at\":"@ + spec_enc_int(t.created_at) + ",\"started_at\":"@
        + spec_enc_opt_int(t.started_at) + ",\"accumulated_duration\":"@ + dec_rep(
        t.accumulated_duration,
    ) + "}"@
}

/// The stored form of every task after the first, each behind a comma.
pub open spec fn spec_enc_tasks_rest(s: Seq<TaskView>) -> Seq<char>
    decreases s.len(),
{
    if s.len() == 0 {
        Seq::empty()
    } else {
        ","@ + spec_enc_task(s[0]) + spec_enc_tasks_rest(s.drop_first())
    }
}

/// The stored form of a task list, comma-separated.
pub open spec fn spec_enc_tasks(s: Seq<TaskView>) -> Seq<char> {
    if s.len() == 0 {
        Seq::empty()
    } else {
        spec_enc_task(s[0]) + spec_enc_tasks_rest(s.drop_first())
    }
}

/// Encoding one more task appends a comma and its form (or just its
/// form, at the front).
pub proof fn lemma_enc_tasks_rest_push(s: Seq<TaskView>, t: TaskView)
    ensures
        spec_enc_tasks_rest(s.push(t)) == spec_enc_tasks_rest(s) + ","@ + spec_enc_task(t),
    decreases s.len(),
{
    if s.len() == 0 {
        assert(s.push(t)[0] == t);
        assert(s.push(t).drop_first() =~= Seq::<TaskView>::empty());
        assert(spec_enc_tasks_rest(Seq::<TaskView>::empty()) == Seq::<char>::empty());
        assert(spec_enc_tasks_rest(s) == Seq::<char>::empty());
        assert(spec_enc_tasks_rest(s.push(t)) == ","@ + spec_enc_task(t) + spec_enc_tasks_rest(
            Seq::<TaskView>::empty(),
        ));
        assert(spec_enc_tasks_rest(s.push(t)) =~= spec_enc_tasks_rest(s) + ","@ + spec_enc_task(
            t,
        ));
    } else {
        assert(s.push(t).drop_first() =~= s.drop_first().push(t));
        lemma_enc_tasks_rest_push(s.drop_first(), t);
        assert(s.push(t)[0] == s[0]);
        assert(spec_enc_tasks_rest(s.push(t)) =~= spec_enc_tasks_rest(s) + ","@ + spec_enc_task(
            t,
        ));
    }
}

/// Encoding one more task appends its form behind a comma, except at
/// the front.
pub proof fn lemma_enc_tasks_push(s: Seq<TaskView>, t: TaskView)
    ensures
        spec_enc_tasks(s.push(t)) == if s.len() == 0 {
            spec_enc_task(t)
        } else {
            spec_enc_tasks(s) + ","@ + spec_enc_task(t)
        },
{
    if s.len() == 0 {
        assert(s.push(t)[0] == t);
        assert(s.push(t).drop_first() =~= Seq::<TaskView>::empty());
        assert(spec_enc_tasks(s.push(t)) =~= spec_enc_task(t));
    } else {
        assert(s.push(t)[0] == s[0]);
        assert(s.push(t).drop_first() =~= s.drop_first().push(t));
        lemma_enc_tasks_rest_push(s.drop_first(), t);
        assert(spec_enc_tasks(s.push(t)) =~= spec_enc_tasks(s) + ","@ + spec_enc_task(t));
    }
}

/// The stored form of a whole manager.
pub open spec fn spec_encode_manager(m: ManagerView) -> Seq<char> {
    "{\"active_task_index\":"@ + spec_enc_opt_int(m.active_task_index) + ",\"tasks\":["@
        + spec_enc_tasks(m.tasks) + "]}"@
}

/// Appends the escaped form of `s` to `out`.
fn escape_into(out: &mut String, s: &str)
    ensures
        final(out)@ == old(out)@ + spec_escape(s@),
{
    let ghost base = out@;
    let n = s.unicode_len();
    let mut i: usize = 0;
    while i < n
        invariant
            0 <= i <= n,
            n == s@.len(),
            out@ == base + spec_escape(s@.take(i as int)),
        decreases n - i,
    {
        let c = s.get_char(i);
        if c == '"' || c == '\\' {
            string_push(out, '\\');
            string_push(out, c);
        } else {
            string_push(out, c);
        }
        proof {
            assert(s@.take(i as int + 1) =~= s@.take(i as int).push(s@[i as int]));
            lemma_escape_push(s@.take(i as int), s@[i as int]);
            assert(out@ =~= base + spec_escape(s@.take(i as int + 1)));
        }
        i = i + 1;
    }
    proof {
        assert(s@.take(n as int) =~= s@);
    }
}

/// Renders a signed number.
fn i64_to_string(n: i64) -> (r: String)
    ensures
        r@ == spec_enc_int(n as int),
{
    if n >= 0 {
        u64_to_string(n as u64)
    } else {
        let mut r = String::from_str("-");
        let magnitude: u64 = ((-(n + 1)) as u64) + 1;
        assert(magnitude == -(n as int));
        let digits = u64_to_string(magnitude);
        r.append(digits.as_str());
        proof {
            reveal_strlit("-");
            assert(r@ =~= spec_enc_int(n as int));
        }
        r
    }
}

/// Appends the stored form of one task to `out`.
fn encode_task_into(out: &mut String, task: &Task)
    ensures
        final(out)@ == old(out)@ + spec_enc_task(task@),
{
    out.append("{\"label\":\"");
    escape_into(out, task.label.as_str());
    out.append("\",\"status\":\"");
    match task.status {
        TaskStatus::Running => out.append("Running"),
        TaskStatus::Paused => out.append("Paused"),
        TaskStatus::Completed => out.append("Completed"),
    }
    out.append("\",\"created_at\":");
    let created = i64_to_string(task.created_at);
    out.append(created.as_str());
    out.append(",\"started_at\":");
    match task.started_at {
        Some(s) => {
            let started = i64_to_string(s);
            out.append(started.as_str());
        },
        None => out.append("null"),
    }
    out.append(",\"accumulated_duration\":");
    let acc = u64_to_string(task.accumulated_duration);
    out.append(acc.as_str());
    out.append("}");
    proof {
        assert(out@ =~= old(out)@ + spec_enc_task(task@));
    }
}

/// Whether the text holds exactly `lit` at position `i`.
pub open spec fn spec_match_lit(s: Seq<char>, i: int, lit: Seq<char>) -> bool {
    0 <= i && i + lit.len() <= s.len() && s.subrange(i, i + lit.len()) == lit
}

/// The position of the first non-digit at or after `i`.
pub open spec fn spec_scan_digits(s: Seq<char>, i: int) -> int
    decreases s.len() - i,
{
    if 0 <= i && i < s.len() && is_digit_char(s[i]) {
        spec_scan_digits(s, i + 1)
    } else {
        i
    }
}

/// The digit scan stays within the text, reads only digits, and stops
/// at the first non-digit.
pub proof fn lemma_scan_digits_props(s: Seq<char>, i: int)
    requires
        0 <= i <= s.len(),
    ensures
        i <= spec_scan_digits(s, i) <= s.len(),
        forall|k: int| i <= k < spec_scan_digits(s, i) ==> is_digit_char(#[trigger] s[k]),
        spec_scan_digits(s, i) < s.len() ==> !is_digit_char(s[spec_scan_digits(s, i)]),
    decreases s.len() - i,
{
    if i < s.len() && is_digit_char(s[i]) {
        lemma_scan_digits_props(s, i + 1);
    }
}

/// A run of digits followed by a non-digit (or the end) is scanned in
/// full, no further.
pub proof fn lemma_scan_digits_exact(s: Seq<char>, i: int, j: int)
    requires
        0 <= i <= j <= s.len(),
        forall|k: int| i <= k < j ==> is_digit_char(#[trigger] s[k]),
        j == s.len() || !is_digit_char(s[j]),
    ensures
        spec_scan_digits(s, i) == j,
    decreases j - i,
{
    if i < j {
        lemma_scan_digits_exact(s, i + 1, j);
    }
}

/// The number read from a digit run starting at `i`, when there is one
/// and its value is at most `bound`, with the position after it.
pub open spec fn spec_parse_u64(s: Seq<char>, i: int, bound: int) -> Option<(int, int)> {
    let j = spec_scan_digits(s, i);
    if j == i {
        None
    } else {
        let v = dec_val(s.subrange(i, j));
        if v > bound {
            None
        } else {
            Some((v, j))
        }
    }
}

/// The signed number starting at `i`, within the signed machine range.
pub open spec fn spec_parse_i64(s: Seq<char>, i: int) -> Option<(int, int)> {
    if 0 <= i && i < s.len() && s[i] == '-' {
        match spec_parse_u64(s, i + 1, i64::MAX as int + 1) {
            Some((v, j)) => Some((-v, j)),
            None => None,
        }
    } else {
        spec_parse_u64(s, i, i64::MAX as int)
    }
}

/// An optional signed number: the word `null` when absent.
pub open spec fn spec_parse_opt_i64(s: Seq<char>, i: int) -> Option<(Option<int>, int)> {
    if spec_match_lit(s, i, "null"@) {
        Some((None, i + "null"@.len()))
    } else {
        match spec_parse_i64(s, i) {
            Some((v, j)) => Some((Some(v), j)),
            None => None,
        }
    }
}

/// An optional task index: the word `null` when absent, else a number
/// that fits the machine.
pub open spec fn spec_parse_opt_index(s: Seq<char>, i: int) -> Option<(Option<int>, int)> {
    if spec_match_lit(s, i, "null"@) {
        Some((None, i + "null"@.len()))
    } else {
        match spec_parse_u64(s, i, usize::MAX as int) {
            Some((v, j)) => Some((Some(v), j)),
            None => None,
        }
    }
}

/// The status whose quoted name starts at `i`, with the position after
/// its closing quote.
pub open spec fn spec_parse_status(s: Seq<char>, i: int) -> Option<(TaskStatus, int)> {
    if spec_match_lit(s, i, "Running\""@) {
        Some((TaskStatus::Running, i + "Running\""@.len()))
    } else if spec_match_lit(s, i, "Paused\""@) {
        Some((TaskStatus::Paused, i + "Paused\""@.len()))
    } else if spec_match_lit(s, i, "Completed\""@) {
        Some((TaskStatus::Completed, i + "Completed\""@.len()))
    } else {
        None
    }
}

/// The label content starting at `i`, up to its closing quote:
/// a backslash escapes a quote or a backslash, and nothing else.
pub open spec fn spec_scan_label(s: Seq<char>, i: int) -> Option<(Seq<char>, int)>
    decreases s.len() - i,
{
    if i < 0 || i >= s.len() {
        None
    } else if s[i] == '"' {
        Some((Seq::empty(), i + 1))
    } else if s[i] == '\\' {
        if i + 1 < s.len() && (s[i + 1] == '"' || s[i + 1] == '\\') {
            match spec_scan_label(s, i + 2) {
                Some((rest, j)) => Some((seq![s[i + 1]] + rest, j)),
                None => None,
            }
        } else {
            None
        }
    } else {
        match spec_scan_label(s, i + 1) {
            Some((rest, j)) => Some((seq![s[i]] + rest, j)),
            None => None,
        }
    }
}

/// The task whose stored form starts at `i`, with the position after
/// it.
pub open spec fn spec_parse_task(s: Seq<char>, i: int) -> Option<(TaskView, int)> {
    if !spec_match_lit(s, i, "{\"label\":\""@) {
        None
    } else {
        let i1 = i + "{\"label\":\""@.len();
        match spec_scan_label(s, i1) {
            None => None,
            Some((label, i2)) => {
                if !spec_match_lit(s, i2, ",\"status\":\""@) {
                    None
                } else {
                    let i3 = i2 + ",\"status\":\""@.len();
                    match spec_parse_status(s, i3) {
                        None => None,
                        Some((status, i4)) => {
                            if !spec_match_lit(s, i4, ",\"created_at\":"@) {
                                None
                            } else {
                                let i5 = i4 + ",\"created_at\":"@.len();
                                match spec_parse_i64(s, i5) {
                                    None => None,
                                    Some((created, i6)) => {
                                        if !spec_match_lit(s, i6, ",\"started_at\":"@) {
                                            None
                                        } else {
                                            let i7 = i6 + ",\"started_at\":"@.len();
                                            match spec_parse_opt_i64(s, i7) {
                                                None => None,
                                                Some((started, i8)) => {
                                                    if !spec_match_lit(
                                                        s,
                                                        i8,
                                                        ",\"accumulated_duration\":"@,
                                                    ) {
                                                        None
                                                    } else {
                                                        let i9 = i8
                                                            + ",\"accumulated_duration\":"@.len();
                                                        match spec_parse_u64(
                                                            s,
                                                            i9,
                                                            u64::MAX as int,
                                                        ) {
                                                            None => None,
                                                            Some((acc, i10)) => {
                                                                if !spec_match_lit(
                                                                    s,
                                                                    i10,
                                                                    "}"@,
                                                                ) {
                                                                    None
                                                                } else {
                                                                    Some(
                                                                        (
                                                                            TaskView {
                                                                                label,
                                                                                status,
                                                                                created_at:
                                                                                    created,
                                                                                started_at:
                                                                                    started,
                                                                                accumulated_duration:
                                                                                    acc,
                                                                            },
                                                                            i10 + "}"@.len(),
                                                                        ),
                                                                    )
                                                                }
                                                            },
                                                        }
                                                    }
                                                },
                                            }
                                        }
                                    },
                                }
                            }
                        },
                    }
                }
            },
        }
    }
}

/// The task list whose stored form starts at `i` and runs to its
/// closing bracket, with the position after it.
pub open spec fn spec_parse_tasks(s: Seq<char>, i: int) -> Option<(Seq<TaskView>, int)>
    decreases s.len() - i,
{
    if spec_match_lit(s, i, "]"@) {
        Some((Seq::empty(), i + "]"@.len()))
    } else {
        match spec_parse_task(s, i) {
            None => None,
            Some((t, j0)) => {
                let j = if j0 > i {
                    j0
                } else {
                    i + 1
                };
                if j < s.len() && s[j] == ',' {
                    match spec_parse_tasks(s, j + 1) {
                        None => None,
                        Some((rest, k)) => Some((seq![t] + rest, k)),
                    }
                } else if j < s.len() && s[j] == ']' {
                    Some((seq![t], j + 1))
                } else {
                    None
                }
            },
        }
    }
}

/// The manager a whole text denotes, if it is exactly one stored
/// manager.
pub open spec fn spec_parse_manager(s: Seq<char>) -> Option<ManagerView> {
    if !spec_match_lit(s, 0, "{\"active_task_index\":"@) {
        None
    } else {
        let i1 = "{\"active_task_index\":"@.len() as int;
        match spec_parse_opt_index(s, i1) {
            None => None,
            Some((active, i2)) => {
                if !spec_match_lit(s, i2, ",\"tasks\":["@) {
                    None
                } else {
                    let i3 = i2 + ",\"tasks\":["@.len();
                    match spec_parse_tasks(s, i3) {
                        None => None,
                        Some((tasks, i4)) => {
                            if spec_match_lit(s, i4, "}"@) && i4 + "}"@.len() == s.len() {
                                Some(ManagerView { tasks, active_task_index: active })
                            } else {
                                None
                            }
                        },
                    }
                }
            },
        }
    }
}

/// Renders the whole manager in its stored form.
pub fn encode_manager(manager: &TaskManager) -> (r: String)
    ensures
        r@ == spec_encode_manager(manager@),
{
    let mut out = String::from_str("{\"active_task_index\":");
    match manager.active_task_index {
        Some(a) => {
            let text = usize_to_string(a);
            out.append(text.as_str());
        },
        None => out.append("null"),
    }
    out.append(",\"tasks\":[");
    let ghost header = out@;
    let len = manager.tasks.len();
    let mut i: usize = 0;
    while i < len
        invariant
            0 <= i <= len,
            len == manager@.tasks.len(),
            out@ == header + spec_enc_tasks(manager@.tasks.take(i as int)),
        decreases len - i,
    {
        if i > 0 {
            out.append(",");
        }
        proof {
            assert(manager.tasks.deep_view()[i as int] == manager.tasks@[i as int]@);
        }
        encode_task_into(&mut out, &manager.tasks[i]);
        proof {
            assert(manager@.tasks.take(i as int + 1) =~= manager@.tasks.take(i as int).push(
                manager@.tasks[i as int],
            ));
            lemma_enc_tasks_push(manager@.tasks.take(i as int), manager@.tasks[i as int]);
            assert(out@ =~= header + spec_enc_tasks(manager@.tasks.take(i as int + 1)));
        }
        i = i + 1;
    }
    proof {
        assert(manager@.tasks.take(len as int) =~= manager@.tasks);
    }
    out.append("]}");
    proof {
        assert(out@ =~= spec_encode_manager(manager@));
    }
    out
}

/// Decides whether the text holds exactly `lit` at position `i`.
fn match_lit(v: &Vec<char>, i: usize, lit: &str) -> (r: bool)
    ensures
        r == spec_match_lit(v@, i as int, lit@),
{
    let n = lit.unicode_len();
    if i > v.len() || n > v.len() - i {
        return false;
    }
    let mut k: usize = 0;
    while k < n
        invariant
            0 <= k <= n,
            n == lit@.len(),
            i + n <= v@.len(),
            v@.len() <= usize::MAX,
            forall|t: int| 0 <= t < k ==> v@[i + t] == #[trigger] lit@[t],
        decreases n - k,
    {
        if v[i + k] != lit.get_char(k) {
            assert(v@[i + k as int] != lit@[k as int]);
            assert(!spec_match_lit(v@, i as int, lit@)) by {
                if spec_match_lit(v@, i as int, lit@) {
                    assert(v@.subrange(i as int, i + lit@.len())[k as int] == lit@[k as int]);
                }
            }
            return false;
        }
        k = k + 1;
    }
    proof {
        assert(v@.subrange(i as int, i + lit@.len()) =~= lit@);
    }
    true
}

/// Requires the text to hold `lit` at position `i`; yields the
/// position after it.
fn expect_lit(v: &Vec<char>, i: usize, lit: &str) -> (r: Option<usize>)
    ensures
        match r {
            Some(j) => spec_match_lit(v@, i as int, lit@) && j as int == i + lit@.len() && j
                <= v@.len(),
            None => !spec_match_lit(v@, i as int, lit@),
        },
{
    if match_lit(v, i, lit) {
        let n = lit.unicode_len();
        let len = v.len();
        assert(i + n <= len);
        Some(i + n)
    } else {
        None
    }
}

/// Finds the first non-digit at or after `i`.
fn scan_digits(v: &Vec<char>, i: usize) -> (r: usize)
    requires
        i <= v@.len(),
    ensures
        r == spec_scan_digits(v@, i as int),
        i <= r <= v@.len(),
{
    let mut j: usize = i;
    while j < v.len() && is_digit(v[j])
        invariant
            i <= j <= v@.len(),
            spec_scan_digits(v@, i as int) == spec_scan_digits(v@, j as int),
        decreases v@.len() - j,
    {
        j = j + 1;
    }
    j
}

/// Reads a digit run as a number of at most `bound`.
fn parse_u64(v: &Vec<char>, i: usize, bound: u64) -> (r: Option<(u64, usize)>)
    requires
        i <= v@.len(),
    ensures
        match r {
            Some((value, j)) => spec_parse_u64(v@, i as int, bound as int) == Some(
                (value as int, j as int),
            ),
            None => spec_parse_u64(v@, i as int, bound as int) is None,
        },
{
    let j = scan_digits(v, i);
    proof {
        lemma_scan_digits_props(v@, i as int);
    }
    if j == i {
        return None;
    }
    let ghost digits = v@.subrange(i as int, j as int);
    proof {
        assert(all_digits(digits)) by {
            assert(forall|k: int|
                0 <= k < digits.len() ==> digits[k] == #[trigger] v@[i + k]);
        }
        lemma_dec_val_nonneg(digits);
    }
    let mut acc: u64 = 0;
    let mut k: usize = i;
    while k < j
        invariant
            i < j,
            i <= k <= j <= v@.len(),
            j == spec_scan_digits(v@, i as int),
            digits == v@.subrange(i as int, j as int),
            all_digits(digits),
            forall|t: int| i <= t < j ==> is_digit_char(#[trigger] v@[t]),
            acc == dec_val(v@.subrange(i as int, k as int)),
            acc <= bound,
        decreases j - k,
    {
        let c = v[k];
        assert(is_digit_char(c));
        let d: u64 = (c as u32 as u64) - ('0' as u32 as u64);
        assert(d == digit_val(v@[k as int]));
        proof {
            assert(v@.subrange(i as int, k as int + 1).drop_last() =~= v@.subrange(
                i as int,
                k as int,
            ));
            assert(v@.subrange(i as int, k as int + 1).last() == v@[k as int]);
        }
        let mut exceeded: bool = false;
        if acc > bound / 10 {
            exceeded = true;
        } else {
            let acc10: u64 = acc * 10;
            if d > bound - acc10 {
                exceeded = true;
            } else {
                acc = acc10 + d;
            }
        }
        if exceeded {
            // The value of the digits seen so far already exceeds the
            // bound, and further digits only increase it.
            proof {
                let prefix = v@.subrange(i as int, k as int + 1);
                assert(dec_val(prefix) == dec_val(v@.subrange(i as int, k as int)) * 10 + d);
                lemma_dec_val_nonneg(v@.subrange(i as int, k as int));
                assert(dec_val(prefix) > bound);
                assert(digits.take(k + 1 - i) =~= prefix);
                lemma_dec_val_prefix_le(digits, k + 1 - i);
                assert(dec_val(digits) > bound);
            }
            return None;
        }
        k = k + 1;
    }
    proof {
        assert(v@.subrange(i as int, j as int) =~= digits);
    }
    Some((acc, j))
}

/// Reads a signed number within the signed machine range.
fn parse_i64(v: &Vec<char>, i: usize) -> (r: Option<(i64, usize)>)
    requires
        i <= v@.len(),
    ensures
        match r {
            Some((value, j)) => spec_parse_i64(v@, i as int) == Some((value as int, j as int)),
            None => spec_parse_i64(v@, i as int) is None,
        },
{
    if i < v.len() && v[i] == '-' {
        match parse_u64(v, i + 1, 9223372036854775808u64) {
            Some((magnitude, j)) => {
                let value: i64 = if magnitude == 0 {
                    0
                } else {
                    (-((magnitude - 1) as i64)) - 1
                };
                assert(value as int == -(magnitude as int));
                Some((value, j))
            },
            None => None,
        }
    } else {
        match parse_u64(v, i, 9223372036854775807u64) {
            Some((value, j)) => Some((value as i64, j)),
            None => None,
        }
    }
}

/// Reads an optional signed number (`null` when absent).
fn parse_opt_i64(v: &Vec<char>, i: usize) -> (r: Option<(Option<i64>, usize)>)
    requires
        i <= v@.len(),
    ensures
        match r {
            Some((value, j)) => spec_parse_opt_i64(v@, i as int) == Some(
                ((match value {
                    Some(x) => Some(x as int),
                    None => None,
                }), j as int),
            ),
            None => spec_parse_opt_i64(v@, i as int) is None,
        },
{
    if let Some(j) = expect_lit(v, i, "null") {
        return Some((None, j));
    }
    match parse_i64(v, i) {
        Some((value, j)) => Some((Some(value), j)),
        None => None,
    }
}

/// Reads an optional task index (`null` when absent).
fn parse_opt_index(v: &Vec<char>, i: usize) -> (r: Option<(Option<usize>, usize)>)
    requires
        i <= v@.len(),
    ensures
        match r {
            Some((value, j)) => spec_parse_opt_index(v@, i as int) == Some(
                ((match value {
                    Some(x) => Some(x as int),
                    None => None,
                }), j as int),
            ),
            None => spec_parse_opt_index(v@, i as int) is None,
        },
{
    if let Some(j) = expect_lit(v, i, "null") {
        return Some((None, j));
    }
    match parse_u64(v, i, usize::MAX as u64) {
        Some((value, j)) => Some((Some(value as usize), j)),
        None => None,
    }
}

/// Reads a quoted status name, closing quote included.
fn parse_status(v: &Vec<char>, i: usize) -> (r: Option<(TaskStatus, usize)>)
    ensures
        match r {
            Some((status, j)) => spec_parse_status(v@, i as int) == Some((status, j as int)),
            None => spec_parse_status(v@, i as int) is None,
        },
{
    if let Some(j) = expect_lit(v, i, "Running\"") {
        Some((TaskStatus::Running, j))
    } else if let Some(j) = expect_lit(v, i, "Paused\"") {
        Some((TaskStatus::Paused, j))
    } else if let Some(j) = expect_lit(v, i, "Completed\"") {
        Some((TaskStatus::Completed, j))
    } else {
        None
    }
}

/// Reads label content up to its closing quote, undoing escapes.
fn scan_label(v: &Vec<char>, i: usize) -> (r: Option<(String, usize)>)
    requires
        i <= v@.len(),
    ensures
        match r {
            Some((label, j)) => spec_scan_label(v@, i as int) == Some((label@, j as int)),
            None => spec_scan_label(v@, i as int) is None,
        },
{
    let mut out = String::new();
    let mut j: usize = i;
    loop
        invariant
            i <= j <= v@.len(),
            spec_scan_label(v@, i as int) == (match spec_scan_label(v@, j as int) {
                Some((rest, k)) => Some((out@ + rest, k)),
                None => None::<(Seq<char>, int)>,
            }),
        decreases v@.len() - j,
    {
        if j >= v.len() {
            return None;
        }
        let c = v[j];
        if c == '"' {
            proof {
                assert(out@ + Seq::<char>::empty() =~= out@);
            }
            return Some((out, j + 1));
        }
        if c == '\\' {
            if j + 1 < v.len() && (v[j + 1] == '"' || v[j + 1] == '\\') {
                let c2 = v[j + 1];
                string_push(&mut out, c2);
                proof {
                    match spec_scan_label(v@, j as int + 2) {
                        Some((rest, k)) => {
                            assert((out@.drop_last() + (seq![c2] + rest)) =~= (out@ + rest));
                        },
                        None => {},
                    }
                }
                j = j + 2;
            } else {
                return None;
            }
        } else {
            string_push(&mut out, c);
            proof {
                match spec_scan_label(v@, j as int + 1) {
                    Some((rest, k)) => {
                        assert((out@.drop_last() + (seq![c] + rest)) =~= (out@ + rest));
                    },
                    None => {},
                }
            }
            j = j + 1;
        }
    }
}

/// Reads one stored task.
fn parse_task(v: &Vec<char>, i: usize) -> (r: Option<(Task, usize)>)
    requires
        i <= v@.len(),
    ensures
        match r {
            Some((task, j)) => spec_parse_task(v@, i as int) == Some((task@, j as int)) && i < j
                <= v@.len(),
            None => spec_parse_task(v@, i as int) is None,
        },
{
    let i1 = match expect_lit(v, i, "{\"label\":\"") {
        Some(j) => j,
        None => {
            return None;
        },
    };
    let (label, i2) = match scan_label(v, i1) {
        Some(x) => x,
        None => {
            return None;
        },
    };
    proof {
        lemma_scan_label_bounds(v@, i1 as int);
    }
    let i3 = match expect_lit(v, i2, ",\"status\":\"") {
        Some(j) => j,
        None => {
            return None;
        },
    };
    let (status, i4) = match parse_status(v, i3) {
        Some(x) => x,
        None => {
            return None;
        },
    };
    let i5 = match expect_lit(v, i4, ",\"created_at\":") {
        Some(j) => j,
        None => {
            return None;
        },
    };
    let (created, i6) = match parse_i64(v, i5) {
        Some(x) => x,
        None => {
            return None;
        },
    };
    proof {
        lemma_parse_i64_bounds(v@, i5 as int);
    }
    let i7 = match expect_lit(v, i6, ",\"started_at\":") {
        Some(j) => j,
        None => {
            return None;
        },
    };
    let (started, i8) = match parse_opt_i64(v, i7) {
        Some(x) => x,
        None => {
            return None;
        },
    };
    proof {
        lemma_parse_opt_i64_bounds(v@, i7 as int);
    }
    let i9 = match expect_lit(v, i8, ",\"accumulated_duration\":") {
        Some(j) => j,
        None => {
            return None;
        },
    };
    let (acc, i10) = match parse_u64(v, i9, u64::MAX) {
        Some(x) => x,
        None => {
            return None;
        },
    };
    proof {
        lemma_scan_digits_props(v@, i9 as int);
    }
    let end = match expect_lit(v, i10, "}") {
        Some(j) => j,
        None => {
            return None;
        },
    };
    let task = Task {
        label,
        status,
        created_at: created,
        started_at: started,
        accumulated_duration: acc,
    };
    proof {
        reveal_strlit("{\"label\":\"");
        assert(end > i);
    }
    Some((task, end))
}

/// The label scan never runs backward nor past the end.
proof fn lemma_scan_label_bounds(s: Seq<char>, i: int)
    requires
        0 <= i,
    ensures
        spec_scan_label(s, i) matches Some((label, j)) ==> i < j <= s.len(),
    decreases s.len() - i,
{
    if i < s.len() {
        if s[i] == '"' {
        } else if s[i] == '\\' {
            if i + 1 < s.len() && (s[i + 1] == '"' || s[i + 1] == '\\') {
                lemma_scan_label_bounds(s, i + 2);
            }
        } else {
            lemma_scan_label_bounds(s, i + 1);
        }
    }
}

/// A signed number never ends past the end of the text.
proof fn lemma_parse_i64_bounds(s: Seq<char>, i: int)
    requires
        0 <= i <= s.len(),
    ensures
        spec_parse_i64(s, i) matches Some((value, j)) ==> i <= j <= s.len(),
{
    lemma_scan_digits_props(s, i);
    if i < s.len() && s[i] == '-' {
        lemma_scan_digits_props(s, i + 1);
    }
}

/// An optional signed number never ends past the end of the text.
proof fn lemma_parse_opt_i64_bounds(s: Seq<char>, i: int)
    requires
        0 <= i <= s.len(),
    ensures
        spec_parse_opt_i64(s, i) matches Some((value, j)) ==> i <= j <= s.len(),
{
    lemma_parse_i64_bounds(s, i);
    reveal_strlit("null");
}

/// Reads a stored task list, closing bracket included.
fn parse_tasks(v: &Vec<char>, i: usize) -> (r: Option<(Vec<Task>, usize)>)
    requires
        i <= v@.len(),
    ensures
        match r {
            Some((tasks, j)) => spec_parse_tasks(v@, i as int) == Some(
                (tasks.deep_view(), j as int),
            ),
            None => spec_parse_tasks(v@, i as int) is None,
        },
{
    let mut out: Vec<Task> = Vec::new();
    let mut j: usize = i;
    loop
        invariant
            i <= j <= v@.len(),
            spec_parse_tasks(v@, i as int) == (match spec_parse_tasks(v@, j as int) {
                Some((rest, k)) => Some((out.deep_view() + rest, k)),
                None => None::<(Seq<TaskView>, int)>,
            }),
        decreases v@.len() - j,
    {
        if let Some(j2) = expect_lit(v, j, "]") {
            proof {
                assert(out.deep_view() + Seq::<TaskView>::empty() =~= out.deep_view());
            }
            return Some((out, j2));
        }
        let (task, j0) = match parse_task(v, j) {
            Some(x) => x,
            None => {
                return None;
            },
        };
        let jn = if j0 > j {
            j0
        } else {
            j + 1
        };
        let ghost prev_s = out@;
        let ghost prev_dv = out.deep_view();
        let ghost tv = task@;
        out.push(task);
        proof {
            assert(out@ == prev_s.push(out@[prev_s.len() as int]));
            assert(out.deep_view() =~= prev_dv.push(tv));
        }
        if jn < v.len() && v[jn] == ',' {
            proof {
                match spec_parse_tasks(v@, jn as int + 1) {
                    Some((rest, k)) => {
                        assert((prev_dv + (seq![tv] + rest)) =~= (out.deep_view() + rest));
                    },
                    None => {},
                }
            }
            j = jn + 1;
        } else if jn < v.len() && v[jn] == ']' {
            proof {
                assert((prev_dv + seq![tv]) =~= out.deep_view());
            }
            return Some((out, jn + 1));
        } else {
            return None;
        }
    }
}

/// Reads a whole stored manager from text. Returns it exactly when
/// the text is one well-formed stored manager; a malformed text, or
/// one whose manager breaks the invariant, reads as nothing.
pub fn decode_manager(s: &str) -> (r: Option<TaskManager>)
    ensures
        match r {
            Some(manager) => spec_parse_manager(s@) == Some(manager@) && manager@.wf(),
            None => spec_parse_manager(s@) is None || !spec_parse_manager(s@).unwrap().wf(),
        },
{
    let v = crate::strutil::chars_of(s);
    let i1 = match expect_lit(&v, 0, "{\"active_task_index\":") {
        Some(j) => j,
        None => {
            return None;
        },
    };
    let (active, i2) = match parse_opt_index(&v, i1) {
        Some(x) => x,
        None => {
            return None;
        },
    };
    proof {
        lemma_scan_digits_props(v@, i1 as int);
        reveal_strlit("null");
    }
    let i3 = match expect_lit(&v, i2, ",\"tasks\":[") {
        Some(j) => j,
        None => {
            return None;
        },
    };
    let (tasks, i4) = match parse_tasks(&v, i3) {
        Some(x) => x,
        None => {
            return None;
        },
    };
    proof {
        lemma_parse_tasks_bounds(v@, i3 as int);
    }
    let end = match expect_lit(&v, i4, "}") {
        Some(j) => j,
        None => {
            return None;
        },
    };
    if end != v.len() {
        return None;
    }
    let manager = TaskManager { tasks, active_task_index: active };
    if manager.is_wf() {
        Some(manager)
    } else {
        None
    }
}

/// Whether a task's numbers lie in the ranges the machine types give
/// them; true of the model of every actual task.
pub open spec fn task_in_range(t: TaskView) -> bool {
    &&& i64::MIN <= t.created_at <= i64::MAX
    &&& (t.started_at matches Some(s) ==> i64::MIN <= s <= i64::MAX)
    &&& 0 <= t.accumulated_duration <= u64::MAX
}

/// Whether a manager's numbers lie in machine ranges; true of the
/// model of every actual manager.
pub open spec fn manager_in_range(m: ManagerView) -> bool {
    &&& forall|k: int| 0 <= k < m.tasks.len() ==> task_in_range(#[trigger] m.tasks[k])
    &&& (m.active_task_index matches Some(a) ==> 0 <= a <= usize::MAX)
}

/// The model of an actual manager is in machine ranges.
pub proof fn lemma_view_in_range(manager: &TaskManager)
    ensures
        manager_in_range(manager@),
{
    assert forall|k: int| 0 <= k < manager@.tasks.len() implies task_in_range(
        #[trigger] manager@.tasks[k],
    ) by {
        assert(manager@.tasks[k] == manager.tasks@[k]@);
    }
}

/// A run of digits embedded at `i` and followed by a non-digit reads
/// back as its value.
proof fn lemma_parse_u64_at(s: Seq<char>, i: int, n: int, bound: int)
    requires
        0 <= n <= bound,
        0 <= i,
        i + dec_rep(n).len() <= s.len(),
        s.subrange(i, i + dec_rep(n).len()) == dec_rep(n),
        i + dec_rep(n).len() == s.len() || !is_digit_char(s[i + dec_rep(n).len()]),
    ensures
        spec_parse_u64(s, i, bound) == Some((n, i + dec_rep(n).len())),
{
    lemma_dec_rep_val(n);
    let len = dec_rep(n).len() as int;
    assert(forall|k: int|
        i <= k < i + len ==> #[trigger] s[k] == dec_rep(n)[k - i]);
    assert(forall|k: int| i <= k < i + len ==> is_digit_char(#[trigger] s[k]));
    lemma_scan_digits_exact(s, i, i + len);
    assert(spec_scan_digits(s, i) == i + len);
    assert(i + len > i);
    assert(dec_val(s.subrange(i, i + len)) == n);
}

/// A signed number embedded at `i` and followed by a non-digit reads
/// back as its value.
proof fn lemma_parse_i64_at(s: Seq<char>, i: int, val: int)
    requires
        i64::MIN <= val <= i64::MAX,
        0 <= i,
        i + spec_enc_int(val).len() <= s.len(),
        s.subrange(i, i + spec_enc_int(val).len()) == spec_enc_int(val),
        i + spec_enc_int(val).len() == s.len() || !is_digit_char(s[i + spec_enc_int(val).len()]),
    ensures
        spec_parse_i64(s, i) == Some((val, i + spec_enc_int(val).len())),
{
    if val < 0 {
        let mag = -val;
        lemma_dec_rep_val(mag);
        let e = spec_enc_int(val);
        assert(e == seq!['-'] + dec_rep(mag));
        assert(s[i] == e[0]);
        assert(e[0] == '-');
        assert(s.subrange(i + 1, i + 1 + dec_rep(mag).len()) =~= dec_rep(mag)) by {
            assert(forall|k: int|
                i <= k < i + e.len() ==> #[trigger] s[k] == e[k - i]);
        }
        lemma_parse_u64_at(s, i + 1, mag, i64::MAX as int + 1);
        assert(spec_parse_i64(s, i) == Some((val, i + e.len())));
    } else {
        lemma_dec_rep_val(val);
        let e = spec_enc_int(val);
        assert(e == dec_rep(val));
        assert(s[i] == e[0]);
        assert(is_digit_char(e[0])) by {
            assert(e[0] == dec_rep(val)[0]);
            assert(all_digits(dec_rep(val)));
        }
        assert(s[i] != '-');
        lemma_parse_u64_at(s, i, val, i64::MAX as int);
    }
}

/// An optional signed number embedded at `i`, followed by a non-digit
/// that is not the letter of `null`, reads back as itself.
proof fn lemma_parse_opt_i64_at(s: Seq<char>, i: int, o: Option<int>)
    requires
        (o matches Some(x) ==> i64::MIN <= x <= i64::MAX),
        0 <= i,
        i + spec_enc_opt_int(o).len() <= s.len(),
        s.subrange(i, i + spec_enc_opt_int(o).len()) == spec_enc_opt_int(o),
        i + spec_enc_opt_int(o).len() == s.len() || (!is_digit_char(
            s[i + spec_enc_opt_int(o).len()],
        ) && s[i + spec_enc_opt_int(o).len()] != 'u'),
    ensures
        spec_parse_opt_i64(s, i) == Some((o, i + spec_enc_opt_int(o).len())),
{
    reveal_strlit("null");
    match o {
        None => {
            assert(spec_enc_opt_int(o) == "null"@);
            assert(spec_match_lit(s, i, "null"@));
            assert("null"@.len() == 4);
        },
        Some(x) => {
            assert(spec_enc_opt_int(o) == spec_enc_int(x));
            lemma_parse_i64_at(s, i, x);
            // The text here is a number, so it cannot read as `null`.
            assert(!spec_match_lit(s, i, "null"@)) by {
                if spec_match_lit(s, i, "null"@) {
                    assert(s[i] == "null"@[0]);
                    assert(s[i] == 'n');
                    let e = spec_enc_int(x);
                    assert(s[i] == e[0]) by {
                        assert(s.subrange(i, i + e.len())[0] == e[0]);
                    }
                    if x < 0 {
                        assert(e[0] == '-');
                    } else {
                        lemma_dec_rep_val(x);
                        assert(is_digit_char(e[0]));
                    }
                }
            }
        },
    }
}

/// An optional index embedded at `i`, followed by a non-digit that is
/// not the letter of `null`, reads back as itself.
proof fn lemma_parse_opt_index_at(s: Seq<char>, i: int, o: Option<int>)
    requires
        (o matches Some(x) ==> 0 <= x <= usize::MAX),
        0 <= i,
        i + spec_enc_opt_int(o).len() <= s.len(),
        s.subrange(i, i + spec_enc_opt_int(o).len()) == spec_enc_opt_int(o),
        i + spec_enc_opt_int(o).len() == s.len() || (!is_digit_char(
            s[i + spec_enc_opt_int(o).len()],
        ) && s[i + spec_enc_opt_int(o).len()] != 'u'),
    ensures
        spec_parse_opt_index(s, i) == Some((o, i + spec_enc_opt_int(o).len())),
{
    reveal_strlit("null");
    match o {
        None => {
            assert(spec_match_lit(s, i, "null"@));
            assert("null"@.len() == 4);
        },
        Some(x) => {
            assert(spec_enc_opt_int(o) == spec_enc_int(x));
            assert(spec_enc_int(x) == dec_rep(x));
            lemma_parse_u64_at(s, i, x, usize::MAX as int);
            assert(!spec_match_lit(s, i, "null"@)) by {
                if spec_match_lit(s, i, "null"@) {
                    assert(s[i] == "null"@[0]);
                    lemma_dec_rep_val(x);
                    assert(s[i] == dec_rep(x)[0]) by {
                        assert(s.subrange(i, i + dec_rep(x).len())[0] == dec_rep(x)[0]);
                    }
                    assert(is_digit_char(dec_rep(x)[0]));
                }
            }
        },
    }
}

/// A status name with its closing quote embedded at `i` reads back as
/// that status.
proof fn lemma_parse_status_at(s: Seq<char>, i: int, st: TaskStatus)
    requires
        0 <= i,
        i + spec_status_name(st).len() + 1 <= s.len(),
        s.subrange(i, i + spec_status_name(st).len() + 1) == spec_status_name(st) + seq!['"'],
    ensures
        spec_parse_status(s, i) == Some((st, i + spec_status_name(st).len() + 1)),
{
    reveal_strlit("Running");
    reveal_strlit("Paused");
    reveal_strlit("Completed");
    reveal_strlit("Running\"");
    reveal_strlit("Paused\"");
    reveal_strlit("Completed\"");
    let e = spec_status_name(st) + seq!['"'];
    assert(forall|k: int| i <= k < i + e.len() ==> #[trigger] s[k] == e[k - i]);
    match st {
        TaskStatus::Running => {
            assert("Running\""@ =~= "Running"@ + seq!['"']);
            assert(spec_match_lit(s, i, "Running\""@)) by {
                assert(s.subrange(i, i + "Running\""@.len()) =~= "Running\""@);
            }
        },
        TaskStatus::Paused => {
            assert("Paused\""@ =~= "Paused"@ + seq!['"']);
            assert(spec_match_lit(s, i, "Paused\""@)) by {
                assert(s.subrange(i, i + "Paused\""@.len()) =~= "Paused\""@);
            }
            assert(!spec_match_lit(s, i, "Running\""@)) by {
                if spec_match_lit(s, i, "Running\""@) {
                    assert(s.subrange(i, i + "Running\""@.len())[0] == 'R');
                    assert(s[i] == 'P');
                }
            }
        },
        TaskStatus::Completed => {
            assert("Completed\""@ =~= "Completed"@ + seq!['"']);
            assert(spec_match_lit(s, i, "Completed\""@)) by {
                assert(s.subrange(i, i + "Completed\""@.len()) =~= "Completed\""@);
            }
            assert(!spec_match_lit(s, i, "Running\""@)) by {
                if spec_match_lit(s, i, "Running\""@) {
                    assert(s.subrange(i, i + "Running\""@.len())[0] == 'R');
                    assert(s[i] == 'C');
                }
            }
            assert(!spec_match_lit(s, i, "Paused\""@)) by {
                if spec_match_lit(s, i, "Paused\""@) {
                    assert(s.subrange(i, i + "Paused\""@.len())[0] == 'P');
                    assert(s[i] == 'C');
                }
            }
        },
    }
}

/// An escaped label embedded at `i` and followed by a quote reads
/// back as the original label.
proof fn lemma_scan_label_at(s: Seq<char>, i: int, l: Seq<char>)
    requires
        0 <= i,
        i + spec_escape(l).len() < s.len(),
        s.subrange(i, i + spec_escape(l).len()) == spec_escape(l),
        s[i + spec_escape(l).len()] == '"',
    ensures
        spec_scan_label(s, i) == Some((l, i + spec_escape(l).len() + 1)),
    decreases l.len(),
{
    let e = spec_escape(l);
    assert(forall|k: int| i <= k < i + e.len() ==> #[trigger] s[k] == e[k - i]);
    if l.len() == 0 {
        assert(e.len() == 0);
        assert(s[i] == '"');
    } else {
        let c = l[0];
        let rest = l.drop_first();
        assert(e == esc_char(c) + spec_escape(rest));
        if c == '"' || c == '\\' {
            assert(esc_char(c) == seq!['\\', c]);
            assert(e[0] == '\\');
            assert(e[1] == c);
            assert(s[i] == '\\');
            assert(s[i + 1] == c);
            assert(s.subrange(i + 2, i + 2 + spec_escape(rest).len()) =~= spec_escape(rest));
            lemma_scan_label_at(s, i + 2, rest);
            assert(seq![c] + rest =~= l);
        } else {
            assert(esc_char(c) == seq![c]);
            assert(e[0] == c);
            assert(s[i] == c);
            assert(s.subrange(i + 1, i + 1 + spec_escape(rest).len()) =~= spec_escape(rest));
            lemma_scan_label_at(s, i + 1, rest);
            assert(seq![c] + rest =~= l);
        }
    }
}

/// Two pieces embedded back to back are each embedded where they
/// stand.
proof fn lemma_split_embed(s: Seq<char>, i: int, a: Seq<char>, b: Seq<char>)
    requires
        0 <= i,
        i + a.len() + b.len() <= s.len(),
        s.subrange(i, i + a.len() + b.len()) == a + b,
    ensures
        s.subrange(i, i + a.len()) == a,
        s.subrange(i + a.len(), i + a.len() + b.len()) == b,
{
    let whole = s.subrange(i, i + a.len() + b.len());
    assert forall|k: int| 0 <= k < a.len() implies s.subrange(i, i + a.len())[k] == a[k] by {
        assert(whole[k] == s[i + k]);
        assert((a + b)[k] == a[k]);
    }
    assert(s.subrange(i, i + a.len()) =~= a);
    assert forall|k: int|
        0 <= k < b.len() implies s.subrange(i + a.len(), i + a.len() + b.len())[k] == b[k] by {
        assert(whole[a.len() + k] == s[i + a.len() + k]);
        assert((a + b)[a.len() + k] == b[k]);
    }
    assert(s.subrange(i + a.len(), i + a.len() + b.len()) =~= b);
}

/// A stored task begins with an opening brace.
proof fn lemma_enc_task_first(t: TaskView)
    ensures
        spec_enc_task(t).len() >= 1,
        spec_enc_task(t)[0] == '{',
{
    reveal_strlit("{\"label\":\"");
    let lit1 = "{\"label\":\""@;
    assert(lit1.len() == 10);
    assert(spec_enc_task(t)[0] == lit1[0]);
}

/// A stored task embedded at `i` reads back as itself.
#[verifier::rlimit(100)]
proof fn lemma_parse_task_at(s: Seq<char>, i: int, t: TaskView)
    requires
        task_in_range(t),
        0 <= i,
        i + spec_enc_task(t).len() <= s.len(),
        s.subrange(i, i + spec_enc_task(t).len()) == spec_enc_task(t),
    ensures
        spec_parse_task(s, i) == Some((t, i + spec_enc_task(t).len())),
{
    reveal_strlit("{\"label\":\"");
    reveal_strlit("\",\"status\":\"");
    reveal_strlit(",\"status\":\"");
    reveal_strlit("\",\"created_at\":");
    reveal_strlit(",\"created_at\":");
    reveal_strlit(",\"started_at\":");
    reveal_strlit(",\"accumulated_duration\":");
    reveal_strlit("}");
    reveal_strlit("Running");
    reveal_strlit("Paused");
    reveal_strlit("Completed");
    let e = spec_enc_task(t);
    assert(forall|k: int| i <= k < i + e.len() ==> #[trigger] s[k] == e[k - i]);
    let lit1 = "{\"label\":\""@;
    let esc = spec_escape(t.label);
    let lit2 = "\",\"status\":\""@;
    let name = spec_status_name(t.status);
    let lit3 = "\",\"created_at\":"@;
    let ec = spec_enc_int(t.created_at);
    let lit4 = ",\"started_at\":"@;
    let es = spec_enc_opt_int(t.started_at);
    let lit5 = ",\"accumulated_duration\":"@;
    let ea = dec_rep(t.accumulated_duration);
    let lit6 = "}"@;
    assert(e == lit1 + esc + lit2 + name + lit3 + ec + lit4 + es + lit5 + ea + lit6);
    let o1 = i + lit1.len();
    let o2 = o1 + esc.len();
    let o3 = o2 + lit2.len();
    let o4 = o3 + name.len();
    let o5 = o4 + lit3.len();
    let o6 = o5 + ec.len();
    let o7 = o6 + lit4.len();
    let o8 = o7 + es.len();
    let o9 = o8 + lit5.len();
    let o10 = o9 + ea.len();
    let end = o10 + lit6.len();
    assert(end == i + e.len());

    // The opening literal.
    assert(spec_match_lit(s, i, lit1)) by {
        assert(s.subrange(i, o1) =~= lit1);
    }
    // The label, closed by the quote that opens the next literal.
    assert(lit2[0] == '"');
    assert(s.subrange(o1, o2) =~= esc);
    assert(s[o2] == '"');
    lemma_scan_label_at(s, o1, t.label);
    assert(spec_scan_label(s, o1) == Some((t.label, o2 + 1)));
    // The status literal, minus the quote the label scan consumed.
    let lit2r = ",\"status\":\""@;
    assert(lit2 =~= seq!['"'] + lit2r);
    assert(spec_match_lit(s, o2 + 1, lit2r)) by {
        assert(s.subrange(o2 + 1, o3) =~= lit2r);
    }
    // The status name with the quote that opens the next literal.
    assert(lit3[0] == '"');
    assert(s.subrange(o3, o4 + 1) =~= name + seq!['"']);
    lemma_parse_status_at(s, o3, t.status);
    // The created-at literal, minus the consumed quote.
    let lit3r = ",\"created_at\":"@;
    assert(lit3 =~= seq!['"'] + lit3r);
    assert(spec_match_lit(s, o4 + 1, lit3r)) by {
        assert(s.subrange(o4 + 1, o5) =~= lit3r);
    }
    // The creation time, terminated by the comma after it.
    assert(s.subrange(o5, o6) =~= ec);
    assert(lit4[0] == ',');
    assert(s[o6] == ',');
    assert(!is_digit_char(','));
    lemma_parse_i64_at(s, o5, t.created_at);
    // The started-at literal.
    assert(spec_match_lit(s, o6, lit4)) by {
        assert(s.subrange(o6, o7) =~= lit4);
    }
    // The session start, terminated by the comma after it.
    assert(s.subrange(o7, o8) =~= es);
    assert(lit5[0] == ',');
    assert(s[o8] == ',');
    lemma_parse_opt_i64_at(s, o7, t.started_at);
    // The accumulated-duration literal.
    assert(spec_match_lit(s, o8, lit5)) by {
        assert(s.subrange(o8, o9) =~= lit5);
    }
    // The accumulated duration, terminated by the closing brace.
    assert(s.subrange(o9, o10) =~= ea);
    assert(lit6[0] == '}');
    assert(s[o10] == '}');
    lemma_parse_u64_at(s, o9, t.accumulated_duration, u64::MAX as int);
    // The closing brace.
    assert(spec_match_lit(s, o10, lit6)) by {
        assert(s.subrange(o10, end) =~= lit6);
    }
    assert(spec_parse_task(s, i) == Some((t, end)));
}

/// A stored task list embedded at `i`, with its closing bracket,
/// reads back as itself.
#[verifier::rlimit(100)]
proof fn lemma_parse_tasks_at(s: Seq<char>, i: int, ts: Seq<TaskView>)
    requires
        forall|k: int| 0 <= k < ts.len() ==> task_in_range(#[trigger] ts[k]),
        0 <= i,
        i + spec_enc_tasks(ts).len() + 1 <= s.len(),
        s.subrange(i, i + spec_enc_tasks(ts).len() + 1) == spec_enc_tasks(ts) + seq![']'],
    ensures
        spec_parse_tasks(s, i) == Some((ts, i + spec_enc_tasks(ts).len() + 1)),
    decreases ts.len(),
{
    reveal_strlit("]");
    assert("]"@.len() == 1);
    if ts.len() == 0 {
        assert(spec_enc_tasks(ts).len() == 0);
        assert(spec_match_lit(s, i, "]"@)) by {
            assert(s.subrange(i, i + 1) =~= "]"@) by {
                assert((spec_enc_tasks(ts) + seq![']'])[0] == ']');
            }
        }
    } else {
        let t0 = ts[0];
        let rest = ts.drop_first();
        let et = spec_enc_task(t0);
        let er = spec_enc_tasks_rest(rest);
        assert(spec_enc_tasks(ts) == et + er);
        assert(spec_enc_tasks(ts) + seq![']'] =~= et + (er + seq![']']));
        lemma_split_embed(s, i, et, er + seq![']']);
        // A task object begins here, not the closing bracket.
        lemma_enc_task_first(t0);
        assert(s[i] == '{') by {
            assert(s.subrange(i, i + et.len())[0] == et[0]);
        }
        assert(!spec_match_lit(s, i, "]"@)) by {
            if spec_match_lit(s, i, "]"@) {
                assert(s.subrange(i, i + 1)[0] == "]"@[0]);
            }
        }
        // The first task reads back as itself.
        lemma_parse_task_at(s, i, t0);
        let j = i + et.len();
        if rest.len() == 0 {
            assert(er.len() == 0);
            assert(er + seq![']'] =~= seq![']']);
            assert(s[j] == ']') by {
                assert(s.subrange(j, j + 1)[0] == ']');
            }
            assert(seq![t0] =~= ts);
        } else {
            // A comma separates it from the rest of the list.
            reveal_strlit(",");
            assert(","@.len() == 1);
            assert(er == ","@ + spec_enc_task(rest[0]) + spec_enc_tasks_rest(rest.drop_first()));
            assert(spec_enc_tasks(rest) == spec_enc_task(rest[0]) + spec_enc_tasks_rest(
                rest.drop_first(),
            ));
            assert(er + seq![']'] =~= ","@ + (spec_enc_tasks(rest) + seq![']']));
            lemma_split_embed(s, j, ","@, spec_enc_tasks(rest) + seq![']']);
            assert(s[j] == ',') by {
                assert(s.subrange(j, j + 1)[0] == ","@[0]);
                assert(","@[0] == ',');
            }
            assert(s[j] != ']');
            lemma_parse_tasks_at(s, j + 1, rest);
            assert(seq![t0] + rest =~= ts);
        }
    }
}

/// Where each part of a stored manager stands in the stored text.
#[verifier::rlimit(100)]
proof fn lemma_manager_layout(m: ManagerView)
    ensures
        ({
            let s = spec_encode_manager(m);
            let o1 = "{\"active_task_index\":"@.len() as int;
            let o2 = o1 + spec_enc_opt_int(m.active_task_index).len();
            let o3 = o2 + ",\"tasks\":["@.len();
            let o4 = o3 + spec_enc_tasks(m.tasks).len();
            &&& spec_match_lit(s, 0, "{\"active_task_index\":"@)
            &&& s.subrange(o1, o2) == spec_enc_opt_int(m.active_task_index)
            &&& spec_match_lit(s, o2, ",\"tasks\":["@)
            &&& s[o2] == ','
            &&& s.subrange(o3, o4 + 1) == spec_enc_tasks(m.tasks) + seq![']']
            &&& spec_match_lit(s, o4 + 1, "}"@)
            &&& s.len() == o4 + 2
        }),
{
    reveal_strlit("{\"active_task_index\":");
    reveal_strlit(",\"tasks\":[");
    reveal_strlit("]}");
    reveal_strlit("}");
    let s = spec_encode_manager(m);
    let lit1 = "{\"active_task_index\":"@;
    let ea = spec_enc_opt_int(m.active_task_index);
    let lit2 = ",\"tasks\":["@;
    let et = spec_enc_tasks(m.tasks);
    let lit3 = "]}"@;
    assert(s == lit1 + ea + lit2 + et + lit3);
    let o1 = lit1.len() as int;
    let o2 = o1 + ea.len();
    let o3 = o2 + lit2.len();
    let o4 = o3 + et.len();
    assert(s.subrange(0, s.len() as int) =~= s);
    // Peel the layout off from the right; each grouping is how the
    // concatenation associates.
    lemma_split_embed(s, 0, lit1 + ea + lit2 + et, lit3);
    lemma_split_embed(s, 0, lit1 + ea + lit2, et);
    lemma_split_embed(s, 0, lit1 + ea, lit2);
    lemma_split_embed(s, 0, lit1, ea);
    assert(spec_match_lit(s, 0, lit1));
    assert(spec_match_lit(s, o2, lit2));
    assert(s[o2] == ',') by {
        assert(s.subrange(o2, o3)[0] == lit2[0]);
        assert(lit2[0] == ',');
    }
    assert(s[o4] == ']') by {
        assert(s.subrange(o4, o4 + 2)[0] == lit3[0]);
        assert(lit3[0] == ']');
    }
    assert(s[o4 + 1] == '}') by {
        assert(s.subrange(o4, o4 + 2)[1] == lit3[1]);
        assert(lit3[1] == '}');
    }
    assert(s.subrange(o3, o4 + 1) =~= et + seq![']']) by {
        assert(forall|k: int|
            0 <= k < et.len() ==> s.subrange(o3, o4 + 1)[k] == #[trigger] s.subrange(o3, o4)[k]);
        assert(s.subrange(o3, o4 + 1)[et.len() as int] == s[o4]);
    }
    assert(spec_match_lit(s, o4 + 1, "}"@)) by {
        assert("}"@.len() == 1);
        assert(s.subrange(o4 + 1, o4 + 2) =~= "}"@);
    }
}

/// Reading back the stored form of a manager restores it exactly:
/// the same task count, labels, statuses, times and focus index.
#[verifier::rlimit(100)]
pub proof fn lemma_encode_parse_round_trip(m: ManagerView)
    requires
        manager_in_range(m),
    ensures
        spec_parse_manager(spec_encode_manager(m)) == Some(m),
{
    lemma_manager_layout(m);
    reveal_strlit("}");
    let s = spec_encode_manager(m);
    let o1 = "{\"active_task_index\":"@.len() as int;
    let o2 = o1 + spec_enc_opt_int(m.active_task_index).len();
    let o3 = o2 + ",\"tasks\":["@.len();
    let o4 = o3 + spec_enc_tasks(m.tasks).len();
    lemma_parse_opt_index_at(s, o1, m.active_task_index);
    lemma_parse_tasks_at(s, o3, m.tasks);
    assert(spec_parse_manager(s) == Some(
        ManagerView { tasks: m.tasks, active_task_index: m.active_task_index },
    ));
    assert(ManagerView { tasks: m.tasks, active_task_index: m.active_task_index } == m);
}

/// Persisting and reloading a manager restores it: the stored form of
/// any well-formed manager reads back as a manager with identical
/// tasks — count, labels, statuses, times — and the same focus index.
pub proof fn lemma_store_round_trip(manager: &TaskManager)
    requires
        manager@.wf(),
    ensures
        spec_parse_manager(spec_encode_manager(manager@)) == Some(manager@),
{
    lemma_view_in_range(manager);
    lemma_encode_parse_round_trip(manager@);
}

/// A task list never ends past the end of the text.
proof fn lemma_parse_tasks_bounds(s: Seq<char>, i: int)
    requires
        0 <= i,
    ensures
        spec_parse_tasks(s, i) matches Some((tasks, j)) ==> j <= s.len(),
    decreases s.len() - i,
{
    if spec_match_lit(s, i, "]"@) {
    } else {
        match spec_parse_task(s, i) {
            None => {},
            Some((t, j0)) => {
                let j = if j0 > i {
                    j0
                } else {
                    i + 1
                };
                if j < s.len() && s[j] == ',' {
                    lemma_parse_tasks_bounds(s, j + 1);
                }
            },
        }
    }
}

} // verus!
