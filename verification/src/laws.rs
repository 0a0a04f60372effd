//! Properties that hold across the operations of the task list.

use vstd::prelude::*;
use crate::vals::TaskStatus;
use crate::text::{
    decimal, digit_char, digits_value, is_digit, is_white_space, parsed_u16, trim_back, trim_front,
    trimmed, task_id_result, TaskIdError,
};
use crate::tasks::{
    TaskView, has_id, is_first_index, is_next_free_id, next_free_id, has_free_id, added, removed,
    edited, with_status, status_is, ids_unique, lemma_first_index, lemma_next_free_id,
};

verus! {

/// Below any unused positive id there is a smallest one.
proof fn lemma_least_free(s: Seq<TaskView>, w: int)
    requires
        1 <= w,
        !has_id(s, w),
    ensures
        is_next_free_id(s, next_free_id(s)),
        next_free_id(s) <= w,
    decreases w,
{
    if forall|j: int| 1 <= j < w ==> has_id(s, j) {
        lemma_next_free_id(s, w);
    } else {
        let j = choose|j: int| 1 <= j < w && !has_id(s, j);
        lemma_least_free(s, j);
    }
}

/// The id a new task gets is positive, fits in 16 bits, is used by no
/// task, and every smaller positive id is in use.
pub proof fn law_new_id_is_least_unused(s: Seq<TaskView>)
    requires
        has_free_id(s),
    ensures
        1 <= next_free_id(s) <= u16::MAX,
        !has_id(s, next_free_id(s)),
        forall|j: int| 1 <= j < next_free_id(s) ==> has_id(s, j),
{
    let w = choose|k: int| 1 <= k <= u16::MAX && !has_id(s, k);
    lemma_least_free(s, w);
}

/// After a task is added, its id is found in the list, and every task
/// that was there before is still there, in its place.
pub proof fn law_added_task_is_found(s: Seq<TaskView>, name: Seq<char>, status: TaskStatus)
    requires
        has_free_id(s),
    ensures
        has_id(added(s, name, status), next_free_id(s)),
        added(s, name, status).len() == s.len() + 1,
        forall|i: int| 0 <= i < s.len() ==> #[trigger] added(s, name, status)[i] == s[i],
{
    law_new_id_is_least_unused(s);
    let a = added(s, name, status);
    assert(a[s.len() as int].0 == next_free_id(s));
}

/// Removing the task that was just added gives back the list as it was.
pub proof fn law_remove_undoes_add(s: Seq<TaskView>, name: Seq<char>, status: TaskStatus)
    requires
        has_free_id(s),
    ensures
        removed(added(s, name, status), next_free_id(s)) == s,
{
    law_new_id_is_least_unused(s);
    let k = next_free_id(s);
    let a = added(s, name, status);
    assert(is_first_index(a, k, s.len() as int)) by {
        assert forall|j: int| 0 <= j < s.len() implies #[trigger] a[j].0 != k by {
            assert(a[j] == s[j]);
            if s[j].0 == k {
                assert(has_id(s, k));
            }
        }
    }
    lemma_first_index(a, k, s.len() as int);
    assert(a.remove(s.len() as int) =~= s);
}

/// Adding a task keeps the ids distinct.
pub proof fn law_add_keeps_ids_unique(s: Seq<TaskView>, name: Seq<char>, status: TaskStatus)
    requires
        has_free_id(s),
        ids_unique(s),
    ensures
        ids_unique(added(s, name, status)),
{
    law_new_id_is_least_unused(s);
    let k = next_free_id(s);
    let a = added(s, name, status);
    assert forall|i: int, j: int| 0 <= i < a.len() && 0 <= j < a.len() && i != j implies a[i].0 != a[j].0 by {
        if i == s.len() {
            assert(a[j] == s[j]);
            if s[j].0 == k {
                assert(has_id(s, k));
            }
        } else if j == s.len() {
            assert(a[i] == s[i]);
            if s[i].0 == k {
                assert(has_id(s, k));
            }
        } else {
            assert(a[i] == s[i]);
            assert(a[j] == s[j]);
        }
    }
}

/// Removing keeps the other tasks in order, and the list shrinks by one
/// exactly when the id was present.
pub proof fn law_remove_shape(s: Seq<TaskView>, id: int)
    ensures
        has_id(s, id) ==> removed(s, id).len() == s.len() - 1,
        !has_id(s, id) ==> removed(s, id) == s,
        forall|t: TaskView| #[trigger] removed(s, id).contains(t) ==> s.contains(t),
{
    if has_id(s, id) {
        let i = choose|i: int| 0 <= i < s.len() && #[trigger] s[i].0 == id;
        lemma_least_index(s, id, i);
        let f = choose|f: int| is_first_index(s, id, f);
        lemma_first_index(s, id, f);
        let r = removed(s, id);
        assert forall|t: TaskView| #[trigger] r.contains(t) implies s.contains(t) by {
            let m = choose|m: int| 0 <= m < r.len() && r[m] == t;
            if m < f {
                assert(s[m] == t);
            } else {
                assert(s[m + 1] == t);
            }
        }
    }
}

/// Some position holding `id` at or before `i` is the first one.
proof fn lemma_least_index(s: Seq<TaskView>, id: int, i: int)
    requires
        0 <= i < s.len(),
        s[i].0 == id,
    ensures
        exists|f: int| is_first_index(s, id, f),
    decreases i,
{
    if forall|j: int| 0 <= j < i ==> #[trigger] s[j].0 != id {
        assert(is_first_index(s, id, i));
    } else {
        let j = choose|j: int| 0 <= j < i && #[trigger] s[j].0 == id;
        lemma_least_index(s, id, j);
    }
}

/// With distinct ids, a removed id is gone from the list, and the ids
/// stay distinct.
pub proof fn law_remove_deletes_id(s: Seq<TaskView>, id: int)
    requires
        ids_unique(s),
    ensures
        !has_id(removed(s, id), id),
        ids_unique(removed(s, id)),
{
    if has_id(s, id) {
        let i = choose|i: int| 0 <= i < s.len() && #[trigger] s[i].0 == id;
        lemma_least_index(s, id, i);
        let f = choose|f: int| is_first_index(s, id, f);
        lemma_first_index(s, id, f);
        let r = removed(s, id);
        assert(r == s.remove(f));
        assert forall|m: int| 0 <= m < r.len() implies #[trigger] r[m].0 != id by {
            if m < f {
                assert(r[m] == s[m]);
            } else {
                assert(r[m] == s[m + 1]);
            }
        }
        assert forall|a: int, b: int| 0 <= a < r.len() && 0 <= b < r.len() && a != b implies r[a].0 != r[b].0 by {
            let a2 = if a < f { a } else { a + 1 };
            let b2 = if b < f { b } else { b + 1 };
            assert(r[a] == s[a2]);
            assert(r[b] == s[b2]);
        }
    }
}

/// Editing keeps the number of tasks and every task's id, so it keeps the
/// ids distinct and the set of ids in use; tasks with another id are
/// left as they are.
pub proof fn law_edit_keeps_ids(s: Seq<TaskView>, id: int, name: Seq<char>, status: TaskStatus)
    ensures
        edited(s, id, name, status).len() == s.len(),
        forall|i: int| 0 <= i < s.len() ==> (#[trigger] edited(s, id, name, status)[i]).0 == s[i].0,
        forall|i: int| 0 <= i < s.len() && s[i].0 != id ==> #[trigger] edited(s, id, name, status)[i] == s[i],
        forall|k: int| #[trigger] has_id(edited(s, id, name, status), k) == has_id(s, k),
        ids_unique(s) ==> ids_unique(edited(s, id, name, status)),
{
    let e = edited(s, id, name, status);
    assert forall|k: int| #[trigger] has_id(e, k) == has_id(s, k) by {
        if has_id(e, k) {
            let i = choose|i: int| 0 <= i < e.len() && #[trigger] e[i].0 == k;
            assert(s[i].0 == k);
        }
        if has_id(s, k) {
            let i = choose|i: int| 0 <= i < s.len() && #[trigger] s[i].0 == k;
            assert(e[i].0 == k);
        }
    }
}

/// Editing an id that no task has changes nothing.
pub proof fn law_edit_absent_changes_nothing(s: Seq<TaskView>, id: int, name: Seq<char>, status: TaskStatus)
    requires
        !has_id(s, id),
    ensures
        edited(s, id, name, status) == s,
{
    let e = edited(s, id, name, status);
    assert forall|i: int| 0 <= i < s.len() implies #[trigger] e[i] == s[i] by {
        if s[i].0 == id {
            assert(has_id(s, id));
        }
    }
    assert(e =~= s);
}

/// Editing with the status `Nth` leaves every status as it was; any other
/// status is given to every task with the edited id.
pub proof fn law_edit_status(s: Seq<TaskView>, id: int, name: Seq<char>, status: TaskStatus)
    ensures
        status == TaskStatus::Nth ==> forall|i: int| 0 <= i < s.len() ==> (#[trigger] edited(s, id, name, status)[i]).2 == s[i].2,
        status != TaskStatus::Nth ==> forall|i: int| 0 <= i < s.len() && s[i].0 == id ==> (#[trigger] edited(s, id, name, status)[i]).2 == status,
        forall|i: int| 0 <= i < s.len() && s[i].0 == id ==> (#[trigger] edited(s, id, name, status)[i]).1 == name,
{
}

/// The tasks listed under a status are exactly the tasks with that
/// status.
pub proof fn law_listing_by_status(s: Seq<TaskView>, status: TaskStatus)
    ensures
        forall|t: TaskView| #[trigger] with_status(s, status).contains(t) <==> (s.contains(t) && t.2 == status),
{
    let pred = status_is(status);
    let f = with_status(s, status);
    assert forall|t: TaskView| #[trigger] f.contains(t) <==> (s.contains(t) && t.2 == status) by {
        if f.contains(t) {
            s.lemma_filter_contains_rev(pred, t);
            let m = choose|m: int| 0 <= m < f.len() && f[m] == t;
            s.lemma_filter_pred(pred, m);
        }
        if s.contains(t) && t.2 == status {
            let m = choose|m: int| 0 <= m < s.len() && s[m] == t;
            s.lemma_filter_contains(pred, m);
        }
    }
}

/// The digit character of `d` stands for `d`.
proof fn lemma_digit_char(d: int)
    requires
        0 <= d <= 9,
    ensures
        digit_char(d) as u32 - '0' as u32 == d,
        is_digit(digit_char(d)),
{
}

/// A number's decimal writing is a non-empty string of digits that
/// reads back as the number.
proof fn lemma_decimal(n: nat)
    ensures
        decimal(n).len() > 0,
        forall|i: int| 0 <= i < decimal(n).len() ==> is_digit(#[trigger] decimal(n)[i]),
        digits_value(decimal(n)) == n,
    decreases n,
{
    if n < 10 {
        lemma_digit_char(n as int);
        assert(decimal(n).drop_last() =~= Seq::<char>::empty());
        assert(digits_value(Seq::<char>::empty()) == 0);
    } else {
        lemma_decimal(n / 10);
        lemma_digit_char((n % 10) as int);
        let d = decimal(n);
        assert(d.drop_last() =~= decimal(n / 10));
        assert(digits_value(d) == digits_value(decimal(n / 10)) * 10 + (d.last() as u32 - '0' as u32));
        assert(n == (n / 10) * 10 + n % 10) by (nonlinear_arith);
        assert forall|i: int| 0 <= i < d.len() implies is_digit(#[trigger] d[i]) by {
            if i < d.len() - 1 {
                assert(d[i] == decimal(n / 10)[i]);
            }
        }
    }
}

/// A task id typed as its decimal digits, with or without the line end
/// that reading a line leaves, is read back as that id when it is at
/// most 1000, and refused as out of range otherwise.
pub proof fn law_typed_id_is_read_back(k: u16)
    ensures
        task_id_result(decimal(k as nat)) == (if k <= 1000 {
            Ok::<u16, TaskIdError>(k)
        } else {
            Err(TaskIdError::OutOfRange)
        }),
        task_id_result(decimal(k as nat).push('\n')) == task_id_result(decimal(k as nat)),
{
    lemma_decimal(k as nat);
    let d = decimal(k as nat);
    assert(is_digit(d[0]));
    assert(is_digit(d.last()));
    assert(trim_front(d) == d);
    assert(trim_back(d) == d);
    assert(trimmed(d) == d);
    assert(d[0] != '+');
    assert(parsed_u16(d) == Some(k));
    let e = d.push('\n');
    assert(e[0] == d[0]);
    assert(trim_front(e) == e);
    assert(e.drop_last() =~= d);
    assert(trim_back(e) == trim_back(d));
    assert(trimmed(e) == d);
}

/// A new task is put after all the tasks already there, which stay as
/// they were; it has the id given to it, the whole name without its
/// surrounding white space, and the status asked for.
pub proof fn law_added_task_is_the_given_one(s: Seq<TaskView>, name: Seq<char>, status: TaskStatus)
    requires
        has_free_id(s),
    ensures
        added(s, name, status).len() == s.len() + 1,
        added(s, name, status).subrange(0, s.len() as int) == s,
        added(s, name, status).last().0 == next_free_id(s),
        added(s, name, status).last().1 == trimmed(name),
        added(s, name, status).last().2 == status,
{
    law_new_id_is_least_unused(s);
    assert(added(s, name, status).subrange(0, s.len() as int) =~= s);
}

/// Removing the task at the first position `f` holding `id` takes out
/// that task alone: the tasks before it and after it follow each other
/// in their old order.
pub proof fn law_remove_keeps_order(s: Seq<TaskView>, id: int, f: int)
    requires
        0 <= f < s.len(),
        s[f].0 == id,
        forall|j: int| 0 <= j < f ==> #[trigger] s[j].0 != id,
    ensures
        removed(s, id) == s.subrange(0, f) + s.subrange(f + 1, s.len() as int),
{
    lemma_first_index(s, id, f);
    assert(s.remove(f) =~= s.subrange(0, f) + s.subrange(f + 1, s.len() as int));
}

/// The listing of a status is built task by task: no task is listed for
/// an empty list, and adding a task at the end lists it once, at the end,
/// exactly when it has the status.
pub proof fn law_listing_grows_with_the_list(s: Seq<TaskView>, t: TaskView, status: TaskStatus)
    ensures
        with_status(Seq::<TaskView>::empty(), status) == Seq::<TaskView>::empty(),
        with_status(s.push(t), status) == (if t.2 == status {
            with_status(s, status).push(t)
        } else {
            with_status(s, status)
        }),
{
    reveal_with_fuel(Seq::<_>::filter, 1);
    assert(Seq::<TaskView>::empty().filter(status_is(status)) =~= Seq::<TaskView>::empty());
    assert(s.push(t).drop_last() =~= s);
}

/// Trimming from the front: the first `i` characters, all white space,
/// go, and what is left starts with a character that is not white space.
proof fn lemma_trim_front(s: Seq<char>) -> (i: int)
    ensures
        0 <= i <= s.len(),
        trim_front(s) == s.subrange(i, s.len() as int),
        forall|k: int| 0 <= k < i ==> is_white_space(#[trigger] s[k]),
        i < s.len() ==> !is_white_space(s[i]),
    decreases s.len(),
{
    if s.len() > 0 && is_white_space(s[0]) {
        let r = s.drop_first();
        let i0 = lemma_trim_front(r);
        assert(r.subrange(i0, r.len() as int) =~= s.subrange(i0 + 1, s.len() as int));
        assert forall|k: int| 0 <= k < i0 + 1 implies is_white_space(#[trigger] s[k]) by {
            if k > 0 {
                assert(s[k] == r[k - 1]);
            }
        }
        if i0 + 1 < s.len() {
            assert(s[i0 + 1] == r[i0]);
        }
        i0 + 1
    } else {
        assert(s.subrange(0, s.len() as int) =~= s);
        0
    }
}

/// Trimming from the back: the characters from position `j` on, all
/// white space, go, and what is left ends with a character that is not
/// white space.
proof fn lemma_trim_back(s: Seq<char>) -> (j: int)
    ensures
        0 <= j <= s.len(),
        trim_back(s) == s.subrange(0, j),
        forall|k: int| j <= k < s.len() ==> is_white_space(#[trigger] s[k]),
        j > 0 ==> !is_white_space(s[j - 1]),
    decreases s.len(),
{
    if s.len() > 0 && is_white_space(s.last()) {
        let r = s.drop_last();
        let j0 = lemma_trim_back(r);
        assert(r.subrange(0, j0) =~= s.subrange(0, j0));
        assert forall|k: int| j0 <= k < s.len() implies is_white_space(#[trigger] s[k]) by {
            if k < s.len() - 1 {
                assert(s[k] == r[k]);
            }
        }
        if j0 > 0 {
            assert(s[j0 - 1] == r[j0 - 1]);
        }
        j0
    } else {
        assert(s.subrange(0, s.len() as int) =~= s);
        s.len() as int
    }
}

/// Trimming keeps one contiguous piece of the text: everything before
/// and after it is white space, and the piece, when not empty, neither
/// starts nor ends with white space.
pub proof fn law_trim_cuts_white_space_ends(s: Seq<char>)
    ensures
        exists|i: int, j: int|
            #![trigger s.subrange(i, j)]
            0 <= i <= j <= s.len() && trimmed(s) == s.subrange(i, j) && (forall|k: int|
                0 <= k < i ==> is_white_space(#[trigger] s[k])) && (forall|k: int|
                j <= k < s.len() ==> is_white_space(#[trigger] s[k])) && (i < j ==> !is_white_space(
                s[i]) && !is_white_space(s[j - 1])),
{
    let i = lemma_trim_front(s);
    let m = s.subrange(i, s.len() as int);
    let j0 = lemma_trim_back(m);
    let j = i + j0;
    assert(m.subrange(0, j0) =~= s.subrange(i, j));
    assert forall|k: int| j <= k < s.len() implies is_white_space(#[trigger] s[k]) by {
        assert(s[k] == m[k - i]);
    }
    if i < j {
        assert(s[i] == m[0]);
        assert(s[j - 1] == m[j0 - 1]);
    }
    assert(trimmed(s) == s.subrange(i, j));
}

/// White space in front does not change what trimming from the front
/// leaves.
proof fn lemma_front_white_space_ignored(a: Seq<char>, x: Seq<char>)
    requires
        forall|k: int| 0 <= k < a.len() ==> is_white_space(#[trigger] a[k]),
    ensures
        trim_front(a + x) == trim_front(x),
    decreases a.len(),
{
    if a.len() == 0 {
        assert(a + x =~= x);
    } else {
        assert((a + x)[0] == a[0]);
        assert((a + x).drop_first() =~= a.drop_first() + x);
        lemma_front_white_space_ignored(a.drop_first(), x);
    }
}

/// White space at the end does not change what trimming from the back
/// leaves.
proof fn lemma_back_white_space_ignored(x: Seq<char>, b: Seq<char>)
    requires
        forall|k: int| 0 <= k < b.len() ==> is_white_space(#[trigger] b[k]),
    ensures
        trim_back(x + b) == trim_back(x),
    decreases b.len(),
{
    if b.len() == 0 {
        assert(x + b =~= x);
    } else {
        assert((x + b).last() == b.last());
        assert((x + b).drop_last() =~= x + b.drop_last());
        lemma_back_white_space_ignored(x, b.drop_last());
    }
}

/// White space typed before or after a task id changes nothing: the id
/// is read as if typed alone, so ids up to 1000 are accepted and larger
/// ones are refused as out of range.
pub proof fn law_white_space_around_id_is_ignored(k: u16, a: Seq<char>, b: Seq<char>)
    requires
        forall|i: int| 0 <= i < a.len() ==> is_white_space(#[trigger] a[i]),
        forall|i: int| 0 <= i < b.len() ==> is_white_space(#[trigger] b[i]),
    ensures
        task_id_result(a + decimal(k as nat) + b) == task_id_result(decimal(k as nat)),
        task_id_result(a + decimal(k as nat) + b) == (if k <= 1000 {
            Ok::<u16, TaskIdError>(k)
        } else {
            Err(TaskIdError::OutOfRange)
        }),
{
    law_typed_id_is_read_back(k);
    lemma_decimal(k as nat);
    let d = decimal(k as nat);
    assert(is_digit(d[0]));
    assert(is_digit(d.last()));
    assert(a + d + b =~= a + (d + b));
    lemma_front_white_space_ignored(a, d + b);
    assert((d + b)[0] == d[0]);
    assert(trim_front(d + b) == d + b);
    lemma_back_white_space_ignored(d, b);
    assert(trim_back(d) == d);
    assert(trimmed(a + d + b) == d);
    assert(trim_front(d) == d);
    assert(trimmed(d) == d);
}

} // verus!
