use vstd::prelude::*;

use crate::text::chars_of;
use crate::units::{format_spec, Prefix};

verus! {

/// `f` occurs in `name` starting at character `i`.
pub open spec fn occurs_at(name: Seq<char>, f: Seq<char>, i: int) -> bool {
    0 <= i && i + f.len() <= name.len() && name.subrange(i, i + f.len()) == f
}

/// `f` occurs somewhere in `name`.
pub open spec fn contains(name: Seq<char>, f: Seq<char>) -> bool {
    exists|i: int| occurs_at(name, f, i)
}

/// `i` is where the first occurrence of `f` in `name` starts.
pub open spec fn is_first_occurrence(name: Seq<char>, f: Seq<char>, i: int) -> bool {
    occurs_at(name, f, i) && forall|j: int| 0 <= j < i ==> !occurs_at(name, f, j)
}

/// The character offset of the first occurrence of `f` in `name`.
pub open spec fn first_offset(name: Seq<char>, f: Seq<char>) -> int {
    choose|i: int| is_first_occurrence(name, f, i)
}

/// There is at most one first occurrence.
proof fn lemma_first_occurrence_unique(name: Seq<char>, f: Seq<char>, i: int)
    requires
        is_first_occurrence(name, f, i),
    ensures
        first_offset(name, f) == i,
{
    let k = first_offset(name, f);
    assert(is_first_occurrence(name, f, k));
    assert(!(k < i) && !(i < k));
}

/// Does `f` occur in `name` at position `i`?
fn occurs_at_exec(name: &Vec<char>, f: &Vec<char>, i: usize) -> (r: bool)
    requires
        i + f@.len() <= name@.len(),
    ensures
        r == occurs_at(name@, f@, i as int),
{
    let m = f.len();
    let len = name.len();
    let mut j: usize = 0;
    while j < m
        invariant
            m == f@.len(),
            len == name@.len(),
            i + m <= name@.len(),
            j <= m,
            forall|t: int| 0 <= t < j ==> name@[i + t] == f@[t],
        decreases m - j,
    {
        if name[i + j] != f[j] {
            assert(name@.subrange(i as int, i + m)[j as int] != f@[j as int]);
            return false;
        }
        j = j + 1;
    }
    assert(name@.subrange(i as int, i + m) =~= f@);
    true
}

/// The character offset of the first occurrence of `filter` in `name`, or
/// `None` where it does not occur. The empty filter occurs at offset 0.
pub fn find_offset(name: &str, filter: &str) -> (r: Option<usize>)
    ensures
        match r {
            Some(i) => is_first_occurrence(name@, filter@, i as int),
            None => !contains(name@, filter@),
        },
{
    let n = chars_of(name);
    let f = chars_of(filter);
    if f.len() > n.len() {
        return None;
    }
    let last = n.len() - f.len();
    let mut i: usize = 0;
    while i <= last
        invariant
            n@ == name@,
            f@ == filter@,
            last + f@.len() == n@.len(),
            forall|j: int| 0 <= j < i ==> !occurs_at(name@, filter@, j),
        decreases last + 1 - i,
    {
        if occurs_at_exec(&n, &f, i) {
            return Some(i);
        }
        if i == last {
            return None;
        }
        i = i + 1;
    }
    None
}

/// One process of a snapshot, as the operating system reported it.
pub struct ProcessRecord {
    /// The process identifier, as text.
    pub pid: String,
    /// The display name; `None` where it could not be read as text.
    pub name: Option<String>,
    /// Resident memory, in bytes.
    pub resident_bytes: u64,
    /// Virtual memory, in bytes.
    pub virtual_bytes: u64,
}

/// A selected process, ready for the table.
pub struct MatchedRow {
    pub pid: String,
    pub name: String,
    /// Where the filter first occurs in the name, in characters.
    pub match_offset: usize,
    /// Resident memory, formatted.
    pub memory: String,
    /// Virtual memory, formatted.
    pub virtual_memory: String,
}

/// The record has a readable name that contains `f`.
pub open spec fn record_matches(r: ProcessRecord, f: Seq<char>) -> bool {
    r.name is Some && contains(r.name->0@, f)
}

/// The sort key offset of a matching record.
pub open spec fn record_offset(r: ProcessRecord, f: Seq<char>) -> int {
    first_offset(r.name->0@, f)
}

/// Record `i` comes before record `j` in the output: a smaller offset first,
/// and on equal offsets the earlier record of the snapshot first.
pub open spec fn precedes(s: Seq<ProcessRecord>, f: Seq<char>, i: int, j: int) -> bool {
    record_offset(s[i], f) < record_offset(s[j], f) || (record_offset(s[i], f) == record_offset(
        s[j],
        f,
    ) && i < j)
}

/// `order` lists the positions in `s` of exactly the records that match `f`,
/// ascending by offset, ties in snapshot order.
pub open spec fn is_selection_order(s: Seq<ProcessRecord>, f: Seq<char>, order: Seq<int>) -> bool {
    &&& forall|k: int| 0 <= k < order.len() ==> 0 <= #[trigger] order[k] < s.len() && record_matches(s[order[k]], f)
    &&& forall|i: int| 0 <= i < s.len() && #[trigger] record_matches(s[i], f) ==> exists|k: int| 0 <= k < order.len() && order[k] == i
    &&& forall|a: int, b: int| 0 <= a < b < order.len() ==> precedes(s, f, #[trigger] order[a], #[trigger] order[b])
}

/// The row shown for the matching record `r`.
pub open spec fn row_for(row: MatchedRow, r: ProcessRecord, f: Seq<char>, p: Prefix) -> bool {
    &&& row.pid@ == r.pid@
    &&& row.name@ == r.name->0@
    &&& row.match_offset == record_offset(r, f)
    &&& row.memory@ == format_spec(r.resident_bytes as nat, p)
    &&& row.virtual_memory@ == format_spec(r.virtual_bytes as nat, p)
}

/// Whether record `r` matches `filter`, and at which offset.
fn record_offset_exec(r: &ProcessRecord, filter: &str) -> (o: Option<usize>)
    ensures
        o is Some <==> record_matches(*r, filter@),
        o is Some ==> o->0 == record_offset(*r, filter@),
{
    match &r.name {
        Some(name) => {
            let o = find_offset(name.as_str(), filter);
            proof {
                if o is Some {
                    lemma_first_occurrence_unique(name@, filter@, o->0 as int);
                }
            }
            o
        },
        None => None,
    }
}

/// The positions in `snapshot` of the records whose name contains `filter`,
/// ascending by the offset of the filter's first occurrence, records with
/// equal offsets in snapshot order.
pub fn match_order(snapshot: &Vec<ProcessRecord>, filter: &str) -> (r: Vec<usize>)
    ensures
        is_selection_order(snapshot@, filter@, r@.map_values(|i: usize| i as int)),
{
    let ghost s = snapshot@;
    let ghost f = filter@;
    // (offset, position) pairs, kept sorted
    let mut keys: Vec<(usize, usize)> = Vec::new();
    let mut i: usize = 0;
    while i < snapshot.len()
        invariant
            s == snapshot@,
            f == filter@,
            i <= s.len(),
            forall|k: int| 0 <= k < keys@.len() ==> #[trigger] keys@[k].1 < i && record_matches(s[keys@[k].1 as int], f)
                && keys@[k].0 == record_offset(s[keys@[k].1 as int], f),
            forall|j: int| 0 <= j < i && #[trigger] record_matches(s[j], f) ==> exists|k: int| 0 <= k < keys@.len() && keys@[k].1 == j,
            forall|a: int, b: int| 0 <= a < b < keys@.len() ==> (#[trigger] keys@[a]).0 < (#[trigger] keys@[b]).0 || (keys@[a].0 == keys@[b].0 && keys@[a].1 < keys@[b].1),
        decreases s.len() - i,
    {
        if let Some(o) = record_offset_exec(&snapshot[i], filter) {
            let mut pos: usize = 0;
            while pos < keys.len() && keys[pos].0 <= o
                invariant
                    pos <= keys@.len(),
                    forall|k: int| 0 <= k < pos ==> (#[trigger] keys@[k]).0 <= o,
                decreases keys@.len() - pos,
            {
                pos = pos + 1;
            }
            let ghost old_keys = keys@;
            keys.insert(pos, (o, i));
            proof {
                old_keys.insert_ensures(pos as int, (o, i));
                assert forall|j: int| 0 <= j <= i && #[trigger] record_matches(s[j], f) implies exists|k: int| 0 <= k < keys@.len() && keys@[k].1 == j by {
                    if j == i {
                        assert(keys@[pos as int].1 == j);
                    } else {
                        let k = choose|k: int| 0 <= k < old_keys.len() && old_keys[k].1 == j;
                        if k < pos {
                            assert(keys@[k].1 == j);
                        } else {
                            assert(keys@[k + 1].1 == j);
                        }
                    }
                }
                assert forall|a: int, b: int| 0 <= a < b < keys@.len() implies (#[trigger] keys@[a]).0 < (#[trigger] keys@[b]).0 || (keys@[a].0 == keys@[b].0 && keys@[a].1 < keys@[b].1) by {
                    if b < pos {
                    } else if b == pos {
                        assert(keys@[a] == old_keys[a]);
                    } else if a < pos {
                        assert(keys@[b] == old_keys[b - 1]);
                    } else if a == pos {
                        assert(keys@[b] == old_keys[b - 1]);
                        if pos < old_keys.len() {
                            assert(old_keys[pos as int].0 > o);
                            if b - 1 > pos {
                                assert(old_keys[pos as int].0 <= old_keys[b - 1].0);
                            }
                        }
                    } else {
                        assert(keys@[a] == old_keys[a - 1]);
                        assert(keys@[b] == old_keys[b - 1]);
                    }
                }
            }
        }
        i = i + 1;
    }
    let mut r: Vec<usize> = Vec::new();
    let mut k: usize = 0;
    while k < keys.len()
        invariant
            k <= keys@.len(),
            r@.len() == k,
            forall|t: int| 0 <= t < k ==> r@[t] == (#[trigger] keys@[t]).1,
        decreases keys@.len() - k,
    {
        r.push(keys[k].1);
        k = k + 1;
    }
    proof {
        let order = r@.map_values(|i: usize| i as int);
        assert forall|t: int| 0 <= t < order.len() implies 0 <= #[trigger] order[t] < s.len() && record_matches(s[order[t]], f) by {
            assert(keys@[t].1 == order[t]);
        }
        assert forall|a: int, b: int| 0 <= a < b < order.len() implies precedes(s, f, #[trigger] order[a], #[trigger] order[b]) by {
            assert(keys@[a].1 == order[a] && keys@[b].1 == order[b]);
        }
        assert forall|j: int| 0 <= j < s.len() && #[trigger] record_matches(s[j], f) implies exists|t: int| 0 <= t < order.len() && order[t] == j by {
            let t = choose|t: int| 0 <= t < keys@.len() && keys@[t].1 == j;
            assert(order[t] == j);
        }
    }
    r
}

/// The order in which the records matching `f` are shown.
pub open spec fn selection_order(s: Seq<ProcessRecord>, f: Seq<char>) -> Seq<int> {
    choose|order: Seq<int>| is_selection_order(s, f, order)
}

/// `rows` are the rows shown for snapshot `s` under filter `f`, in order.
pub open spec fn is_selection(s: Seq<ProcessRecord>, f: Seq<char>, p: Prefix, rows: Seq<MatchedRow>) -> bool {
    let order = selection_order(s, f);
    &&& is_selection_order(s, f, order)
    &&& rows.len() == order.len()
    &&& forall|k: int| 0 <= k < rows.len() ==> row_for(#[trigger] rows[k], s[order[k]], f, p)
}

/// Two orders that both meet `is_selection_order` are the same.
proof fn lemma_selection_order_unique(s: Seq<ProcessRecord>, f: Seq<char>, o1: Seq<int>, o2: Seq<int>)
    requires
        forall|a: int, b: int| 0 <= a < b < o1.len() ==> precedes(s, f, #[trigger] o1[a], #[trigger] o1[b]),
        forall|a: int, b: int| 0 <= a < b < o2.len() ==> precedes(s, f, #[trigger] o2[a], #[trigger] o2[b]),
        forall|x: int| o1.contains(x) <==> o2.contains(x),
    ensures
        o1 == o2,
    decreases o1.len(),
{
    if o1.len() == 0 {
        if o2.len() > 0 {
            assert(o2.contains(o2[0]));
        }
        assert(o1 =~= o2);
    } else {
        assert(o1.contains(o1[0]));
        let j = choose|k: int| 0 <= k < o2.len() && o2[k] == o1[0];
        assert(o2.contains(o2[0]));
        let i = choose|k: int| 0 <= k < o1.len() && o1[k] == o2[0];
        if j > 0 {
            assert(precedes(s, f, o2[0], o2[j]));
            if i > 0 {
                assert(precedes(s, f, o1[0], o1[i]));
            }
            assert(false);
        }
        let t1 = o1.drop_first();
        let t2 = o2.drop_first();
        assert forall|a: int, b: int| 0 <= a < b < t1.len() implies precedes(s, f, #[trigger] t1[a], #[trigger] t1[b]) by {
            assert(t1[a] == o1[a + 1] && t1[b] == o1[b + 1]);
        }
        assert forall|a: int, b: int| 0 <= a < b < t2.len() implies precedes(s, f, #[trigger] t2[a], #[trigger] t2[b]) by {
            assert(t2[a] == o2[a + 1] && t2[b] == o2[b + 1]);
        }
        assert forall|x: int| t1.contains(x) <==> t2.contains(x) by {
            if t1.contains(x) {
                let k = choose|k: int| 0 <= k < t1.len() && t1[k] == x;
                assert(o1[k + 1] == x);
                assert(precedes(s, f, o1[0], o1[k + 1]));
                assert(o1.contains(x));
                let m = choose|m: int| 0 <= m < o2.len() && o2[m] == x;
                assert(m != 0);
                assert(t2[m - 1] == x);
            }
            if t2.contains(x) {
                let k = choose|k: int| 0 <= k < t2.len() && t2[k] == x;
                assert(o2[k + 1] == x);
                assert(precedes(s, f, o2[0], o2[k + 1]));
                assert(o2.contains(x));
                let m = choose|m: int| 0 <= m < o1.len() && o1[m] == x;
                assert(m != 0);
                assert(t1[m - 1] == x);
            }
        }
        lemma_selection_order_unique(s, f, t1, t2);
        assert(o1 =~= t1.insert(0, o1[0]));
        assert(o2 =~= t2.insert(0, o2[0]));
    }
}

/// Any order that meets `is_selection_order` is `selection_order`.
proof fn lemma_is_the_selection_order(s: Seq<ProcessRecord>, f: Seq<char>, order: Seq<int>)
    requires
        is_selection_order(s, f, order),
    ensures
        selection_order(s, f) == order,
        is_selection_order(s, f, selection_order(s, f)),
{
    let o = selection_order(s, f);
    assert(is_selection_order(s, f, o));
    assert forall|x: int| o.contains(x) <==> order.contains(x) by {
        if o.contains(x) {
            let k = choose|k: int| 0 <= k < o.len() && o[k] == x;
            assert(record_matches(s[o[k]], f));
        }
        if order.contains(x) {
            let k = choose|k: int| 0 <= k < order.len() && order[k] == x;
            assert(record_matches(s[order[k]], f));
        }
    }
    lemma_selection_order_unique(s, f, o, order);
}

/// The rows for the records of `snapshot` whose name contains `filter`,
/// ascending by the offset of the filter's first occurrence (ties in
/// snapshot order), with both memory figures formatted under `p`.
pub fn select(snapshot: &Vec<ProcessRecord>, filter: &str, p: Prefix) -> (rows: Vec<MatchedRow>)
    ensures
        is_selection(snapshot@, filter@, p, rows@),
{
    let order = match_order(snapshot, filter);
    let ghost go = order@.map_values(|i: usize| i as int);
    proof {
        lemma_is_the_selection_order(snapshot@, filter@, go);
    }
    let mut rows: Vec<MatchedRow> = Vec::new();
    let mut k: usize = 0;
    while k < order.len()
        invariant
            go == order@.map_values(|i: usize| i as int),
            is_selection_order(snapshot@, filter@, go),
            k <= order@.len(),
            rows@.len() == k,
            forall|t: int| 0 <= t < k ==> row_for(#[trigger] rows@[t], snapshot@[go[t]], filter@, p),
        decreases order@.len() - k,
    {
        let i = order[k];
        assert(go[k as int] == i as int);
        let r = &snapshot[i];
        let name = match &r.name {
            Some(n) => n.clone(),
            None => String::new(),
        };
        let offset = match record_offset_exec(r, filter) {
            Some(o) => o,
            None => 0,
        };
        let row = MatchedRow {
            pid: r.pid.clone(),
            name,
            match_offset: offset,
            memory: crate::units::format(r.resident_bytes, p),
            virtual_memory: crate::units::format(r.virtual_bytes, p),
        };
        rows.push(row);
        k = k + 1;
    }
    rows
}

/// The identifiers of the records whose name could not be read, in order.
pub open spec fn undecodable(s: Seq<ProcessRecord>) -> Seq<Seq<char>>
    decreases s.len(),
{
    if s.len() == 0 {
        Seq::empty()
    } else if s.last().name is None {
        undecodable(s.drop_last()).push(s.last().pid@)
    } else {
        undecodable(s.drop_last())
    }
}

/// The identifiers of the records whose name could not be read as text, in
/// snapshot order: such records are left out of the selection.
pub fn undecodable_pids(snapshot: &Vec<ProcessRecord>) -> (r: Vec<String>)
    ensures
        r@.map_values(|x: String| x@) == undecodable(snapshot@),
{
    let mut r: Vec<String> = Vec::new();
    let mut i: usize = 0;
    while i < snapshot.len()
        invariant
            i <= snapshot@.len(),
            r@.map_values(|x: String| x@) == undecodable(snapshot@.subrange(0, i as int)),
        decreases snapshot@.len() - i,
    {
        let ghost before = r@;
        assert(snapshot@.subrange(0, i + 1).drop_last() =~= snapshot@.subrange(0, i as int));
        if snapshot[i].name.is_none() {
            r.push(snapshot[i].pid.clone());
            assert(r@.map_values(|x: String| x@) =~= before.map_values(|x: String| x@).push(snapshot@[i as int].pid@));
        }
        i = i + 1;
    }
    assert(snapshot@.subrange(0, snapshot@.len() as int) =~= snapshot@);
    r
}

/// Every row shown has a name that contains the filter, and every record
/// whose name contains the filter is shown.
pub proof fn lemma_filter_exact(s: Seq<ProcessRecord>, f: Seq<char>, p: Prefix, rows: Seq<MatchedRow>)
    requires
        is_selection(s, f, p, rows),
    ensures
        forall|k: int| 0 <= k < rows.len() ==> contains(#[trigger] rows[k].name@, f),
        forall|i: int| 0 <= i < s.len() && #[trigger] record_matches(s[i], f) ==> exists|k: int| 0 <= k < rows.len() && row_for(rows[k], s[i], f, p),
{
    let order = selection_order(s, f);
    assert forall|k: int| 0 <= k < rows.len() implies contains(#[trigger] rows[k].name@, f) by {
        assert(row_for(rows[k], s[order[k]], f, p));
        assert(record_matches(s[order[k]], f));
    }
    assert forall|i: int| 0 <= i < s.len() && #[trigger] record_matches(s[i], f) implies exists|k: int| 0 <= k < rows.len() && row_for(rows[k], s[i], f, p) by {
        let k = choose|k: int| 0 <= k < order.len() && order[k] == i;
        assert(row_for(rows[k], s[order[k]], f, p));
    }
}

/// Rows come ascending by offset, and rows with equal offsets keep the order
/// of their records in the snapshot.
pub proof fn lemma_sorted_stable(s: Seq<ProcessRecord>, f: Seq<char>, p: Prefix, rows: Seq<MatchedRow>)
    requires
        is_selection(s, f, p, rows),
    ensures
        forall|a: int, b: int| 0 <= a < b < rows.len() ==> (#[trigger] rows[a]).match_offset <= (#[trigger] rows[b]).match_offset,
        forall|a: int, b: int| 0 <= a < b < rows.len() && (#[trigger] rows[a]).match_offset == (#[trigger] rows[b]).match_offset ==> selection_order(s, f)[a] < selection_order(s, f)[b],
{
    let order = selection_order(s, f);
    assert forall|a: int, b: int| 0 <= a < b < rows.len() implies (#[trigger] rows[a]).match_offset <= (#[trigger] rows[b]).match_offset && (rows[a].match_offset == rows[b].match_offset ==> order[a] < order[b]) by {
        assert(row_for(rows[a], s[order[a]], f, p));
        assert(row_for(rows[b], s[order[b]], f, p));
        assert(precedes(s, f, order[a], order[b]));
    }
}

} // verus!
