use vstd::prelude::*;

verus! {

/// A row of the process table: one text per column, the process id in the
/// second column.
pub open spec fn row_view(row: Vec<String>) -> Seq<Seq<char>> {
    row@.map_values(|s: String| s@)
}

pub open spec fn table_view(rows: Seq<Vec<String>>) -> Seq<Seq<Seq<char>>> {
    rows.map_values(|r: Vec<String>| row_view(r))
}

/// The process id of a row.
pub open spec fn pid(row: Seq<Seq<char>>) -> Seq<char> {
    row[1]
}

/// Whether a table holds a row with the given process id.
pub open spec fn has_pid(table: Seq<Seq<Seq<char>>>, id: Seq<char>) -> bool {
    exists|i: int| 0 <= i < table.len() && pid(#[trigger] table[i]) == id
}

/// Every row has a process id column.
pub open spec fn well_formed(table: Seq<Seq<Seq<char>>>) -> bool {
    forall|i: int| 0 <= i < table.len() ==> (#[trigger] table[i]).len() >= 2
}

/// The rows whose process is still reported, in their order.
pub open spec fn still_running(rows: Seq<Seq<Seq<char>>>, processes: Seq<Seq<Seq<char>>>) -> Seq<Seq<Seq<char>>>
    decreases rows.len(),
{
    if rows.len() == 0 {
        Seq::empty()
    } else {
        let kept = still_running(rows.drop_last(), processes);
        if has_pid(processes, pid(rows.last())) {
            kept.push(rows.last())
        } else {
            kept
        }
    }
}

/// The first row with the given process id.
pub open spec fn first_with_pid(rows: Seq<Seq<Seq<char>>>, id: Seq<char>) -> Option<int>
    decreases rows.len(),
{
    if rows.len() == 0 {
        None
    } else if pid(rows[0]) == id {
        Some(0)
    } else {
        match first_with_pid(rows.drop_first(), id) {
            Some(i) => Some(i + 1),
            None => None,
        }
    }
}

/// A reported process replaces the first row with its id, or is added at
/// the end.
pub open spec fn upsert(rows: Seq<Seq<Seq<char>>>, process: Seq<Seq<char>>) -> Seq<Seq<Seq<char>>> {
    match first_with_pid(rows, pid(process)) {
        Some(i) => rows.update(i, process),
        None => rows.push(process),
    }
}

pub open spec fn upsert_all(rows: Seq<Seq<Seq<char>>>, processes: Seq<Seq<Seq<char>>>) -> Seq<Seq<Seq<char>>>
    decreases processes.len(),
{
    if processes.len() == 0 {
        rows
    } else {
        upsert(upsert_all(rows, processes.drop_last()), processes.last())
    }
}

/// The process table after a report: the rows of processes that went away
/// are removed, then each reported process replaces its row or is added.
pub open spec fn synced(rows: Seq<Seq<Seq<char>>>, processes: Seq<Seq<Seq<char>>>) -> Seq<Seq<Seq<char>>> {
    upsert_all(still_running(rows, processes), processes)
}

proof fn lemma_first_with_pid(rows: Seq<Seq<Seq<char>>>, id: Seq<char>, i: int)
    requires
        0 <= i <= rows.len(),
        forall|j: int| 0 <= j < i ==> pid(#[trigger] rows[j]) != id,
        i < rows.len() ==> pid(rows[i]) == id,
    ensures
        first_with_pid(rows, id) == (if i < rows.len() { Some(i) } else { None::<int> }),
    decreases i,
{
    if rows.len() > 0 && i > 0 {
        assert(pid(rows[0]) != id);
        let t = rows.drop_first();
        assert forall|j: int| 0 <= j < i - 1 implies pid(#[trigger] t[j]) != id by {
            assert(t[j] == rows[j + 1]);
        }
        if i < rows.len() {
            assert(t[i - 1] == rows[i]);
        }
        lemma_first_with_pid(t, id, i - 1);
    }
}

/// The first row with an id has it, and no row before it does; without one,
/// no row has the id.
proof fn lemma_first_with_pid_props(rows: Seq<Seq<Seq<char>>>, id: Seq<char>)
    ensures
        match first_with_pid(rows, id) {
            Some(i) => 0 <= i < rows.len() && pid(rows[i]) == id,
            None => !has_pid(rows, id),
        },
    decreases rows.len(),
{
    if rows.len() > 0 && pid(rows[0]) != id {
        let t = rows.drop_first();
        lemma_first_with_pid_props(t, id);
        match first_with_pid(t, id) {
            Some(i) => {
                assert(rows[i + 1] == t[i]);
            },
            None => {
                if has_pid(rows, id) {
                    let w = choose|w: int| 0 <= w < rows.len() && pid(#[trigger] rows[w]) == id;
                    assert(w > 0);
                    assert(t[w - 1] == rows[w]);
                }
            },
        }
    }
}

fn clone_row(row: &Vec<String>) -> (copy: Vec<String>)
    ensures
        row_view(copy) == row_view(*row),
{
    let mut copy: Vec<String> = Vec::new();
    let mut i: usize = 0;
    while i < row.len()
        invariant
            i <= row@.len(),
            copy@.len() == i,
            forall|k: int| 0 <= k < i ==> (#[trigger] copy@[k])@ == row@[k]@,
        decreases row@.len() - i,
    {
        copy.push(row[i].clone());
        i = i + 1;
    }
    assert(row_view(copy) =~= row_view(*row));
    copy
}

/// Whether the reported processes hold one with the given id.
fn reported(processes: &Vec<Vec<String>>, id: &String) -> (found: bool)
    requires
        well_formed(table_view(processes@)),
    ensures
        found == has_pid(table_view(processes@), id@),
{
    let ghost t = table_view(processes@);
    let mut j: usize = 0;
    while j < processes.len()
        invariant
            j <= processes@.len(),
            t == table_view(processes@),
            well_formed(t),
            forall|k: int| 0 <= k < j ==> pid(#[trigger] t[k]) != id@,
        decreases processes@.len() - j,
    {
        assert(t[j as int].len() >= 2);
        assert(t[j as int] == row_view(processes@[j as int]));
        if processes[j][1] == *id {
            assert(pid(t[j as int]) == id@);
            return true;
        }
        j = j + 1;
    }
    false
}

/// Brings the process table up to date with a report of the running
/// processes.
pub fn sync_process_rows(rows: &mut Vec<Vec<String>>, processes: &Vec<Vec<String>>)
    requires
        well_formed(table_view(old(rows)@)),
        well_formed(table_view(processes@)),
    ensures
        table_view(final(rows)@) == synced(table_view(old(rows)@), table_view(processes@)),
{
    let ghost procs = table_view(processes@);
    let ghost orig = table_view(rows@);
    let mut kept: Vec<Vec<String>> = Vec::new();
    let mut i: usize = 0;
    while i < rows.len()
        invariant
            i <= rows@.len(),
            orig == table_view(rows@),
            well_formed(orig),
            procs == table_view(processes@),
            well_formed(procs),
            well_formed(table_view(kept@)),
            table_view(kept@) == still_running(orig.take(i as int), procs),
        decreases rows@.len() - i,
    {
        assert(orig[i as int] == row_view(rows@[i as int]));
        assert(orig[i as int].len() >= 2);
        let keep = reported(processes, &rows[i][1]);
        proof {
            let t = orig.take(i + 1);
            assert(t.drop_last() =~= orig.take(i as int));
            assert(t.last() == orig[i as int]);
        }
        if keep {
            let copy = clone_row(&rows[i]);
            let ghost before = kept@;
            kept.push(copy);
            assert(table_view(kept@) =~= table_view(before).push(row_view(copy)));
        }
        i = i + 1;
    }
    assert(orig.take(orig.len() as int) =~= orig);
    let mut j: usize = 0;
    assert(procs.take(0) =~= Seq::<Seq<Seq<char>>>::empty());
    while j < processes.len()
        invariant
            j <= processes@.len(),
            procs == table_view(processes@),
            well_formed(procs),
            well_formed(table_view(kept@)),
            table_view(kept@) == upsert_all(still_running(orig, procs), procs.take(j as int)),
        decreases processes@.len() - j,
    {
        let process = &processes[j];
        assert(procs[j as int] == row_view(processes@[j as int]));
        assert(procs[j as int].len() >= 2);
        let ghost current = table_view(kept@);
        let ghost id = pid(procs[j as int]);
        let mut k: usize = 0;
        while k < kept.len() && !(kept[k].len() >= 2 && kept[k][1] == process[1])
            invariant
                k <= kept@.len(),
                current == table_view(kept@),
                well_formed(current),
                procs[j as int] == row_view(*process),
                id == pid(procs[j as int]),
                row_view(*process).len() >= 2,
                forall|m: int| 0 <= m < k ==> pid(#[trigger] current[m]) != id,
            decreases kept@.len() - k,
        {
            proof {
                assert(current[k as int] == row_view(kept@[k as int]));
                assert(current[k as int].len() >= 2);
            }
            k = k + 1;
        }
        proof {
            if k < kept@.len() {
                assert(current[k as int] == row_view(kept@[k as int]));
                assert(current[k as int].len() >= 2);
            }
            lemma_first_with_pid(current, id, k as int);
            let t = procs.take(j + 1);
            assert(t.drop_last() =~= procs.take(j as int));
            assert(t.last() == procs[j as int]);
        }
        let copy = clone_row(process);
        if k < kept.len() {
            kept.set(k, copy);
            assert(table_view(kept@) =~= current.update(k as int, procs[j as int]));
        } else {
            kept.push(copy);
            assert(table_view(kept@) =~= current.push(procs[j as int]));
        }
        j = j + 1;
    }
    assert(procs.take(procs.len() as int) =~= procs);
    *rows = kept;
}

proof fn lemma_still_running_reported(rows: Seq<Seq<Seq<char>>>, processes: Seq<Seq<Seq<char>>>, id: Seq<char>)
    ensures
        has_pid(still_running(rows, processes), id) ==> has_pid(processes, id),
    decreases rows.len(),
{
    if rows.len() > 0 {
        lemma_still_running_reported(rows.drop_last(), processes, id);
        let kept = still_running(rows.drop_last(), processes);
        if has_pid(still_running(rows, processes), id) {
            let i = choose|i: int| 0 <= i < still_running(rows, processes).len() && pid(#[trigger] still_running(rows, processes)[i]) == id;
            if has_pid(processes, pid(rows.last())) {
                if i < kept.len() {
                    assert(kept.push(rows.last())[i] == kept[i]);
                    assert(has_pid(kept, id));
                }
            } else {
                assert(has_pid(kept, id));
            }
        }
    }
}

proof fn lemma_upsert_pids(rows: Seq<Seq<Seq<char>>>, process: Seq<Seq<char>>, id: Seq<char>)
    ensures
        has_pid(upsert(rows, process), id) <==> (has_pid(rows, id) || id == pid(process)),
{
    let r = upsert(rows, process);
    lemma_first_with_pid_props(rows, pid(process));
    match first_with_pid(rows, pid(process)) {
        Some(i) => {
            assert(r[i] == process);
            if has_pid(rows, id) {
                let w = choose|w: int| 0 <= w < rows.len() && pid(#[trigger] rows[w]) == id;
                if w == i {
                    assert(pid(r[i]) == id);
                } else {
                    assert(r[w] == rows[w]);
                }
            }
            if has_pid(r, id) {
                let w = choose|w: int| 0 <= w < r.len() && pid(#[trigger] r[w]) == id;
                if w != i {
                    assert(r[w] == rows[w]);
                }
            }
        },
        None => {
            assert(r[rows.len() as int] == process);
            if has_pid(rows, id) {
                let w = choose|w: int| 0 <= w < rows.len() && pid(#[trigger] rows[w]) == id;
                assert(r[w] == rows[w]);
            }
            if has_pid(r, id) {
                let w = choose|w: int| 0 <= w < r.len() && pid(#[trigger] r[w]) == id;
                if w < rows.len() {
                    assert(r[w] == rows[w]);
                }
            }
        },
    }
}

proof fn lemma_upsert_all_pids(rows: Seq<Seq<Seq<char>>>, processes: Seq<Seq<Seq<char>>>, id: Seq<char>)
    ensures
        has_pid(upsert_all(rows, processes), id) <==> (has_pid(rows, id) || has_pid(processes, id)),
    decreases processes.len(),
{
    if processes.len() > 0 {
        let init = processes.drop_last();
        lemma_upsert_all_pids(rows, init, id);
        lemma_upsert_pids(upsert_all(rows, init), processes.last(), id);
        if has_pid(init, id) {
            let w = choose|w: int| 0 <= w < init.len() && pid(#[trigger] init[w]) == id;
            assert(processes[w] == init[w]);
        }
        if has_pid(processes, id) {
            let w = choose|w: int| 0 <= w < processes.len() && pid(#[trigger] processes[w]) == id;
            if w < init.len() {
                assert(processes[w] == init[w]);
            }
        }
        if id == pid(processes.last()) {
            assert(pid(processes[processes.len() - 1]) == id);
        }
    }
}

/// After a report, the process table shows exactly the reported processes:
/// a process id has a row if and only if it was reported.
pub proof fn lemma_synced_shows_reported(rows: Seq<Seq<Seq<char>>>, processes: Seq<Seq<Seq<char>>>, id: Seq<char>)
    ensures
        has_pid(synced(rows, processes), id) <==> has_pid(processes, id),
{
    lemma_upsert_all_pids(still_running(rows, processes), processes, id);
    lemma_still_running_reported(rows, processes, id);
}

/// No two rows share a process id.
pub open spec fn distinct_pids(t: Seq<Seq<Seq<char>>>) -> bool {
    forall|i: int, j: int| 0 <= i < j < t.len() ==> pid(#[trigger] t[i]) != pid(#[trigger] t[j])
}

proof fn lemma_still_running_from_rows(rows: Seq<Seq<Seq<char>>>, processes: Seq<Seq<Seq<char>>>)
    ensures
        forall|k: int| #![trigger still_running(rows, processes)[k]] 0 <= k < still_running(rows, processes).len() ==> exists|i: int|
            0 <= i < rows.len() && still_running(rows, processes)[k] == #[trigger] rows[i],
        distinct_pids(rows) ==> distinct_pids(still_running(rows, processes)),
    decreases rows.len(),
{
    if rows.len() > 0 {
        let init = rows.drop_last();
        lemma_still_running_from_rows(init, processes);
        let kept = still_running(init, processes);
        let r = still_running(rows, processes);
        assert forall|k: int| #![trigger r[k]] 0 <= k < r.len() implies exists|i: int| 0 <= i < rows.len() && r[k] == #[trigger] rows[i] by {
            if k < kept.len() {
                let i = choose|i: int| 0 <= i < init.len() && kept[k] == init[i];
                assert(r[k] == kept[k]);
                assert(rows[i] == init[i]);
            } else {
                assert(r[k] == rows[rows.len() - 1]);
            }
        }
        if distinct_pids(rows) {
            assert(distinct_pids(init)) by {
                assert forall|i: int, j: int| 0 <= i < j < init.len() implies pid(#[trigger] init[i]) != pid(#[trigger] init[j]) by {
                    assert(init[i] == rows[i] && init[j] == rows[j]);
                }
            }
            assert forall|i: int, j: int| 0 <= i < j < r.len() implies pid(#[trigger] r[i]) != pid(#[trigger] r[j]) by {
                if j < kept.len() {
                    assert(r[i] == kept[i] && r[j] == kept[j]);
                } else {
                    assert(r[j] == rows[rows.len() - 1]);
                    assert(r[i] == kept[i]);
                    let w = choose|w: int| 0 <= w < init.len() && kept[i] == init[w];
                    assert(rows[w] == init[w]);
                    assert(pid(rows[w]) != pid(rows[rows.len() - 1]));
                }
            }
        }
    }
}

proof fn lemma_upsert_keeps(rows: Seq<Seq<Seq<char>>>, process: Seq<Seq<char>>)
    ensures
        distinct_pids(rows) ==> distinct_pids(upsert(rows, process)),
        upsert(rows, process).len() >= rows.len(),
        exists|j: int| 0 <= j < upsert(rows, process).len() && #[trigger] upsert(rows, process)[j] == process,
        forall|j: int| 0 <= j < rows.len() && pid(rows[j]) != pid(process) ==> #[trigger] upsert(rows, process)[j] == rows[j],
{
    lemma_first_with_pid_props(rows, pid(process));
    let r = upsert(rows, process);
    match first_with_pid(rows, pid(process)) {
        Some(i) => {
            assert(r[i] == process);
            if distinct_pids(rows) {
                assert forall|a: int, b: int| 0 <= a < b < r.len() implies pid(#[trigger] r[a]) != pid(#[trigger] r[b]) by {
                    assert(pid(r[a]) == pid(rows[a]));
                    assert(pid(r[b]) == pid(rows[b]));
                }
            }
        },
        None => {
            assert(r[rows.len() as int] == process);
            if distinct_pids(rows) {
                assert forall|a: int, b: int| 0 <= a < b < r.len() implies pid(#[trigger] r[a]) != pid(#[trigger] r[b]) by {
                    if b == rows.len() {
                        assert(r[a] == rows[a]);
                        if pid(rows[a]) == pid(process) {
                            assert(has_pid(rows, pid(process)));
                        }
                    } else {
                        assert(r[a] == rows[a] && r[b] == rows[b]);
                    }
                }
            }
        },
    }
}

proof fn lemma_upsert_all_rows(rows: Seq<Seq<Seq<char>>>, processes: Seq<Seq<Seq<char>>>)
    requires
        distinct_pids(processes),
    ensures
        distinct_pids(rows) ==> distinct_pids(upsert_all(rows, processes)),
        forall|k: int| #![trigger processes[k]] 0 <= k < processes.len() ==> exists|j: int|
            0 <= j < upsert_all(rows, processes).len() && #[trigger] upsert_all(rows, processes)[j] == processes[k],
    decreases processes.len(),
{
    if processes.len() > 0 {
        let init = processes.drop_last();
        assert(distinct_pids(init)) by {
            assert forall|i: int, j: int| 0 <= i < j < init.len() implies pid(#[trigger] init[i]) != pid(#[trigger] init[j]) by {
                assert(init[i] == processes[i] && init[j] == processes[j]);
            }
        }
        lemma_upsert_all_rows(rows, init);
        let x = upsert_all(rows, init);
        let p = processes.last();
        lemma_upsert_keeps(x, p);
        let r = upsert_all(rows, processes);
        assert(r == upsert(x, p));
        assert forall|k: int| #![trigger processes[k]] 0 <= k < processes.len() implies exists|j: int| 0 <= j < r.len() && #[trigger] r[j] == processes[k] by {
            if k == processes.len() - 1 {
                let j = choose|j: int| 0 <= j < upsert(x, p).len() && upsert(x, p)[j] == p;
                assert(r[j] == processes[k]);
            } else {
                assert(processes[k] == init[k]);
                let j = choose|j: int| 0 <= j < x.len() && #[trigger] x[j] == init[k];
                assert(pid(processes[k]) != pid(processes[processes.len() - 1]));
                assert(pid(x[j]) != pid(p));
                assert(r[j] == x[j]);
                assert(r[j] == processes[k]);
            }
        }
    }
}

/// When neither the table nor the report holds a process id twice, the
/// synced table holds exactly one row per reported process, equal to the
/// process's values, and no other row: its process ids are distinct, each
/// process is one of its rows, and each of its rows has a reported id.
pub proof fn lemma_synced_one_row_per_process(rows: Seq<Seq<Seq<char>>>, processes: Seq<Seq<Seq<char>>>)
    requires
        distinct_pids(rows),
        distinct_pids(processes),
    ensures
        distinct_pids(synced(rows, processes)),
        forall|k: int| #![trigger processes[k]] 0 <= k < processes.len() ==> exists|j: int|
            0 <= j < synced(rows, processes).len() && #[trigger] synced(rows, processes)[j] == processes[k],
        forall|j: int| 0 <= j < synced(rows, processes).len() ==> has_pid(processes, pid(#[trigger] synced(rows, processes)[j])),
{
    lemma_still_running_from_rows(rows, processes);
    lemma_upsert_all_rows(still_running(rows, processes), processes);
    let t = synced(rows, processes);
    assert forall|j: int| 0 <= j < t.len() implies has_pid(processes, pid(#[trigger] t[j])) by {
        assert(has_pid(t, pid(t[j])));
        lemma_synced_shows_reported(rows, processes, pid(t[j]));
    }
}

} // verus!
