use crate::text::{char_vec, lowercase, to_lowercase};
use vstd::prelude::*;

verus! {

/// The order in which the process table is shown.
#[derive(Debug, Clone, Copy, PartialEq, Eq, Structural)]
pub enum SortBy {
    Pid,
    Name,
    Cpu,
    Memory,
}

/// One process as the table shows it.
#[derive(Debug, Clone)]
pub struct ProcessInfo {
    pub pid: u32,
    pub name: String,
    /// The IEEE-754 bit pattern of the CPU usage (a non-negative `f32`
    /// percentage). For non-negative values the bit patterns, read as
    /// integers, are ordered as the values are.
    pub cpu_bits: u32,
    /// Resident memory in bytes.
    pub memory: u64,
    pub status: String,
}

impl ProcessInfo {
    /// A field-by-field copy.
    fn copied(&self) -> (r: ProcessInfo)
        ensures
            r == *self,
    {
        ProcessInfo {
            pid: self.pid,
            name: self.name.clone(),
            cpu_bits: self.cpu_bits,
            memory: self.memory,
            status: self.status.clone(),
        }
    }
}

/// Characters as their code points.
pub open spec fn chars_key(s: Seq<char>) -> Seq<u64> {
    s.map_values(|c: char| (c as u32) as u64)
}

/// The key by which a process is ordered; the table lists processes by
/// increasing key. `folded_name` is the lower-case form of its name. PID and
/// name sort upwards, CPU usage and memory downwards.
pub open spec fn sort_key(mode: SortBy, p: ProcessInfo, folded_name: Seq<char>) -> Seq<u64> {
    match mode {
        SortBy::Pid => seq![p.pid as u64],
        SortBy::Name => chars_key(folded_name),
        SortBy::Cpu => seq![(u32::MAX - p.cpu_bits) as u64],
        SortBy::Memory => seq![(u64::MAX - p.memory) as u64],
    }
}

/// Lexicographic order on keys; a proper prefix comes first.
pub open spec fn key_lt(a: Seq<u64>, b: Seq<u64>) -> bool
    decreases a.len(),
{
    if b.len() == 0 {
        false
    } else if a.len() == 0 {
        true
    } else if a[0] != b[0] {
        a[0] < b[0]
    } else {
        key_lt(a.drop_first(), b.drop_first())
    }
}

/// No key comes before itself.
pub proof fn lemma_key_lt_irreflexive(a: Seq<u64>)
    ensures
        !key_lt(a, a),
    decreases a.len(),
{
    if a.len() > 0 {
        lemma_key_lt_irreflexive(a.drop_first());
    }
}

/// The key order is transitive.
pub proof fn lemma_key_lt_transitive(a: Seq<u64>, b: Seq<u64>, c: Seq<u64>)
    requires
        key_lt(a, b),
        key_lt(b, c),
    ensures
        key_lt(a, c),
    decreases a.len(),
{
    if a.len() > 0 && b.len() > 0 && c.len() > 0 && a[0] == b[0] && b[0] == c[0] {
        lemma_key_lt_transitive(a.drop_first(), b.drop_first(), c.drop_first());
    }
}

/// Of two different keys, one comes before the other.
pub proof fn lemma_key_lt_total(a: Seq<u64>, b: Seq<u64>)
    requires
        a != b,
    ensures
        key_lt(a, b) || key_lt(b, a),
    decreases a.len(),
{
    if a.len() > 0 && b.len() > 0 && a[0] == b[0] {
        if a.drop_first() == b.drop_first() {
            assert(a =~= seq![a[0]] + a.drop_first());
            assert(b =~= seq![b[0]] + b.drop_first());
        }
        lemma_key_lt_total(a.drop_first(), b.drop_first());
    } else if a.len() == 0 && b.len() == 0 {
        assert(a =~= b);
    }
}

/// Whether key `a` comes before key `b`.
fn key_less(a: &Vec<u64>, b: &Vec<u64>) -> (r: bool)
    ensures
        r == key_lt(a@, b@),
{
    let mut i: usize = 0;
    assert(a@.skip(0) =~= a@);
    assert(b@.skip(0) =~= b@);
    while i < a.len() && i < b.len()
        invariant
            i <= a.len(),
            i <= b.len(),
            key_lt(a@, b@) == key_lt(a@.skip(i as int), b@.skip(i as int)),
        decreases a.len() - i,
    {
        if a[i] != b[i] {
            return a[i] < b[i];
        }
        assert(a@.skip(i as int).drop_first() =~= a@.skip(i + 1));
        assert(b@.skip(i as int).drop_first() =~= b@.skip(i + 1));
        i = i + 1;
    }
    i < b.len()
}


/// Process `a` is listed before process `b`: its key comes first, or the keys
/// are equal and it came first in the input (the sort is stable).
pub open spec fn ranked_before(keys: Seq<Seq<u64>>, a: int, b: int) -> bool {
    key_lt(keys[a], keys[b]) || (keys[a] == keys[b] && a < b)
}

/// `order` lists, by position in the input, exactly the processes marked in
/// `keep`, each once, in ranking order.
pub open spec fn is_display_order(keys: Seq<Seq<u64>>, keep: Seq<bool>, order: Seq<usize>) -> bool {
    &&& forall|i: int| 0 <= i < order.len() ==> #[trigger] order[i] < keys.len()
    &&& forall|k: usize| k < keys.len() ==> (order.contains(k) <==> keep[k as int])
    &&& forall|i: int, j: int|
        0 <= i < j < order.len() ==> ranked_before(keys, #[trigger] order[i] as int, #[trigger] order[j] as int)
}

/// The display order of the processes (there is exactly one, see
/// `lemma_display_order_unique`).
pub open spec fn display_order(keys: Seq<Seq<u64>>, keep: Seq<bool>) -> Seq<usize> {
    choose|order: Seq<usize>| is_display_order(keys, keep, order)
}

/// The keys of `items` under `mode`, given their lower-case names.
pub open spec fn process_keys(mode: SortBy, items: Seq<ProcessInfo>, folded: Seq<Seq<char>>) -> Seq<Seq<u64>> {
    Seq::new(items.len(), |k: int| sort_key(mode, items[k], folded[k]))
}

/// `needle` occurs in `name`.
pub open spec fn passes_filter(name: Seq<char>, needle: Seq<char>) -> bool {
    exists|i: int| 0 <= i <= name.len() - needle.len() && #[trigger] name.subrange(i, i + needle.len()) == needle
}

/// Which of `items` pass the filter `needle`, given their lower-case names.
pub open spec fn filter_marks(folded: Seq<Seq<char>>, needle: Seq<char>) -> Seq<bool> {
    Seq::new(folded.len(), |k: int| passes_filter(folded[k], needle))
}

/// The processes of `items` whose lower-case name holds `needle`, ordered by
/// `mode` (ties keep their input order).
pub open spec fn sorted_view(mode: SortBy, items: Seq<ProcessInfo>, folded: Seq<Seq<char>>, needle: Seq<char>) -> Seq<ProcessInfo> {
    display_order(process_keys(mode, items, folded), filter_marks(folded, needle)).map_values(|k: usize| items[k as int])
}

proof fn lemma_ranked_transitive(keys: Seq<Seq<u64>>, a: int, b: int, c: int)
    requires
        ranked_before(keys, a, b),
        ranked_before(keys, b, c),
    ensures
        ranked_before(keys, a, c),
{
    if key_lt(keys[a], keys[b]) && key_lt(keys[b], keys[c]) {
        lemma_key_lt_transitive(keys[a], keys[b], keys[c]);
    }
}

proof fn lemma_ranked_asymmetric(keys: Seq<Seq<u64>>, a: int, b: int)
    requires
        ranked_before(keys, a, b),
    ensures
        !ranked_before(keys, b, a),
{
    lemma_key_lt_irreflexive(keys[a]);
    lemma_key_lt_irreflexive(keys[b]);
    if key_lt(keys[a], keys[b]) && key_lt(keys[b], keys[a]) {
        lemma_key_lt_transitive(keys[a], keys[b], keys[a]);
    }
}

proof fn lemma_ranked_sequences_equal(keys: Seq<Seq<u64>>, o1: Seq<usize>, o2: Seq<usize>)
    requires
        forall|x: usize| o1.contains(x) <==> o2.contains(x),
        forall|i: int, j: int|
            0 <= i < j < o1.len() ==> ranked_before(keys, #[trigger] o1[i] as int, #[trigger] o1[j] as int),
        forall|i: int, j: int|
            0 <= i < j < o2.len() ==> ranked_before(keys, #[trigger] o2[i] as int, #[trigger] o2[j] as int),
    ensures
        o1 == o2,
    decreases o1.len(),
{
    if o1.len() == 0 {
        if o2.len() > 0 {
            assert(o2.contains(o2[0]));
        }
        assert(o1 =~= o2);
    } else {
        assert(o1.contains(o1[0]));
        let a = o1[0];
        let b = o2[0];
        if a != b {
            assert(o2.contains(b));
            let i = choose|i: int| 0 <= i < o1.len() && o1[i] == b;
            let j = choose|j: int| 0 <= j < o2.len() && o2[j] == a;
            assert(ranked_before(keys, o1[0] as int, o1[i] as int));
            assert(ranked_before(keys, o2[0] as int, o2[j] as int));
            lemma_ranked_asymmetric(keys, a as int, b as int);
        }
        let r1 = o1.drop_first();
        let r2 = o2.drop_first();
        assert forall|x: usize| r1.contains(x) <==> r2.contains(x) by {
            if r1.contains(x) {
                let i = choose|i: int| 0 <= i < r1.len() && r1[i] == x;
                assert(o1[i + 1] == x);
                if x == a {
                    lemma_key_lt_irreflexive(keys[a as int]);
                    assert(ranked_before(keys, o1[0] as int, o1[i + 1] as int));
                }
                assert(o2.contains(x));
                let j = choose|j: int| 0 <= j < o2.len() && o2[j] == x;
                assert(j != 0);
                assert(r2[j - 1] == x);
            }
            if r2.contains(x) {
                let j = choose|j: int| 0 <= j < r2.len() && r2[j] == x;
                assert(o2[j + 1] == x);
                if x == a {
                    lemma_key_lt_irreflexive(keys[a as int]);
                    assert(ranked_before(keys, o2[0] as int, o2[j + 1] as int));
                }
                assert(o1.contains(x));
                let i = choose|i: int| 0 <= i < o1.len() && o1[i] == x;
                assert(i != 0);
                assert(r1[i - 1] == x);
            }
        }
        assert forall|i: int, j: int| 0 <= i < j < r1.len() implies ranked_before(keys, #[trigger] r1[i] as int, #[trigger] r1[j] as int) by {
            assert(r1[i] == o1[i + 1] && r1[j] == o1[j + 1]);
        }
        assert forall|i: int, j: int| 0 <= i < j < r2.len() implies ranked_before(keys, #[trigger] r2[i] as int, #[trigger] r2[j] as int) by {
            assert(r2[i] == o2[i + 1] && r2[j] == o2[j + 1]);
        }
        lemma_ranked_sequences_equal(keys, r1, r2);
        assert(o1 =~= seq![a] + r1);
        assert(o2 =~= seq![b] + r2);
    }
}

/// `order` is the display order of the first `m` processes.
spec fn orders_prefix(keys: Seq<Seq<u64>>, keep: Seq<bool>, order: Seq<usize>, m: nat) -> bool {
    &&& forall|i: int| 0 <= i < order.len() ==> #[trigger] order[i] < m
    &&& forall|x: usize| x < m ==> (order.contains(x) <==> keep[x as int])
    &&& forall|i: int, j: int|
        0 <= i < j < order.len() ==> ranked_before(keys, #[trigger] order[i] as int, #[trigger] order[j] as int)
}

/// The first position of `order` whose key comes after the key of `k`.
spec fn insertion_index(keys: Seq<Seq<u64>>, order: Seq<usize>, k: int) -> nat
    decreases order.len(),
{
    if order.len() == 0 {
        0
    } else if key_lt(keys[k], keys[order[0] as int]) {
        0
    } else {
        1 + insertion_index(keys, order.drop_first(), k)
    }
}

proof fn lemma_insertion_index(keys: Seq<Seq<u64>>, order: Seq<usize>, k: int)
    ensures
        insertion_index(keys, order, k) <= order.len(),
        forall|i: int| 0 <= i < insertion_index(keys, order, k) ==> !key_lt(keys[k], #[trigger] keys[order[i] as int]),
        insertion_index(keys, order, k) < order.len() ==> key_lt(keys[k], keys[order[insertion_index(keys, order, k) as int] as int]),
    decreases order.len(),
{
    if order.len() > 0 && !key_lt(keys[k], keys[order[0] as int]) {
        let rest = order.drop_first();
        lemma_insertion_index(keys, rest, k);
        assert forall|i: int| 0 <= i < insertion_index(keys, order, k) implies !key_lt(keys[k], #[trigger] keys[order[i] as int]) by {
            if i > 0 {
                assert(order[i] == rest[i - 1]);
            }
        }
    }
}

proof fn lemma_orders_prefix_extend(keys: Seq<Seq<u64>>, keep: Seq<bool>, order: Seq<usize>, m: nat) -> (next: Seq<usize>)
    requires
        m < keys.len(),
        keys.len() <= usize::MAX,
        keep.len() == keys.len(),
        orders_prefix(keys, keep, order, m),
    ensures
        orders_prefix(keys, keep, next, m + 1),
        next == (if keep[m as int] {
            order.insert(insertion_index(keys, order, m as int) as int, m as usize)
        } else {
            order
        }),
{
    if !keep[m as int] {
        assert forall|x: usize| x < m + 1 implies (order.contains(x) <==> keep[x as int]) by {
            if x == m && order.contains(x) {
                let i = choose|i: int| 0 <= i < order.len() && order[i] == x;
                assert(order[i] < m);
            }
        }
        order
    } else {
        let k = m as int;
        let p = insertion_index(keys, order, k);
        lemma_insertion_index(keys, order, k);
        let next = order.insert(p as int, m as usize);
        order.insert_ensures(p as int, m as usize);
        assert forall|i: int| 0 <= i < next.len() implies #[trigger] next[i] < m + 1 by {
            if i < p {
                assert(next[i] == order[i]);
            } else if i > p {
                assert(next[i] == order[i - 1]);
            }
        }
        assert forall|x: usize| x < m + 1 implies (next.contains(x) <==> keep[x as int]) by {
            if x == m {
                assert(next[p as int] == m);
            } else {
                if order.contains(x) {
                    let i = choose|i: int| 0 <= i < order.len() && order[i] == x;
                    if i < p {
                        assert(next[i] == x);
                    } else {
                        assert(next[i + 1] == x);
                    }
                }
                if next.contains(x) {
                    let i = choose|i: int| 0 <= i < next.len() && next[i] == x;
                    if i < p {
                        assert(order[i] == x);
                    } else if i > p {
                        assert(order[i - 1] == x);
                    }
                }
            }
        }
        assert forall|i: int, j: int| 0 <= i < j < next.len() implies ranked_before(keys, #[trigger] next[i] as int, #[trigger] next[j] as int) by {
            if j < p {
                assert(next[i] == order[i] && next[j] == order[j]);
            } else if i > p {
                assert(next[i] == order[i - 1] && next[j] == order[j - 1]);
            } else if i < p && j > p {
                assert(next[i] == order[i] && next[j] == order[j - 1]);
            } else if i == p {
                let o = order[p as int] as int;
                assert(ranked_before(keys, k, o));
                if j > p + 1 {
                    assert(next[j] == order[j - 1]);
                    assert(ranked_before(keys, order[p as int] as int, order[j - 1] as int));
                    lemma_ranked_transitive(keys, k, o, next[j] as int);
                }
            } else {
                let o = order[i] as int;
                assert(next[i] == order[i]);
                assert(!key_lt(keys[k], keys[o]));
                assert(o < k);
                if keys[o] != keys[k] {
                    lemma_key_lt_total(keys[o], keys[k]);
                }
            }
        }
        next
    }
}

proof fn lemma_orders_prefix_exists(keys: Seq<Seq<u64>>, keep: Seq<bool>, m: nat) -> (order: Seq<usize>)
    requires
        m <= keys.len(),
        keys.len() <= usize::MAX,
        keep.len() == keys.len(),
    ensures
        orders_prefix(keys, keep, order, m),
    decreases m,
{
    if m == 0 {
        Seq::<usize>::empty()
    } else {
        let order = lemma_orders_prefix_exists(keys, keep, (m - 1) as nat);
        lemma_orders_prefix_extend(keys, keep, order, (m - 1) as nat)
    }
}

/// Every list of keys and filter marks has a display order (so
/// `display_order` is one).
pub proof fn lemma_display_order_exists(keys: Seq<Seq<u64>>, keep: Seq<bool>)
    requires
        keep.len() == keys.len(),
        keys.len() <= usize::MAX,
    ensures
        is_display_order(keys, keep, display_order(keys, keep)),
{
    let order = lemma_orders_prefix_exists(keys, keep, keys.len());
    assert(is_display_order(keys, keep, order));
}

/// Two display orders of the same processes, keys and filter marks are the
/// same order.
pub proof fn lemma_display_order_unique(keys: Seq<Seq<u64>>, keep: Seq<bool>, o1: Seq<usize>, o2: Seq<usize>)
    requires
        is_display_order(keys, keep, o1),
        is_display_order(keys, keep, o2),
    ensures
        o1 == o2,
{
    assert forall|x: usize| o1.contains(x) <==> o2.contains(x) by {
        if o1.contains(x) {
            let i = choose|i: int| 0 <= i < o1.len() && o1[i] == x;
            assert(o1[i] < keys.len());
        }
        if o2.contains(x) {
            let i = choose|i: int| 0 <= i < o2.len() && o2[i] == x;
            assert(o2[i] < keys.len());
        }
    }
    lemma_ranked_sequences_equal(keys, o1, o2);
}


/// The sort key of `p` under `mode`, given its lower-case name.
fn make_key(mode: SortBy, p: &ProcessInfo, folded_name: &Vec<char>) -> (k: Vec<u64>)
    ensures
        k@ == sort_key(mode, *p, folded_name@),
{
    match mode {
        SortBy::Pid => vec![p.pid as u64],
        SortBy::Cpu => {
            let down: u64 = (u32::MAX - p.cpu_bits) as u64;
            vec![down]
        },
        SortBy::Memory => {
            let down: u64 = u64::MAX - p.memory;
            vec![down]
        },
        SortBy::Name => {
            let mut k: Vec<u64> = Vec::new();
            let mut i: usize = 0;
            while i < folded_name.len()
                invariant
                    i <= folded_name.len(),
                    k@ == chars_key(folded_name@.take(i as int)),
                decreases folded_name.len() - i,
            {
                let c = folded_name[i];
                k.push(c as u32 as u64);
                assert(chars_key(folded_name@.take(i as int)).push((c as u32) as u64)
                    =~= chars_key(folded_name@.take(i + 1)));
                i = i + 1;
            }
            assert(folded_name@.take(i as int) =~= folded_name@);
            k
        },
    }
}

/// Whether `needle` occurs in `hay` starting at position `at`.
fn occurs_at(hay: &Vec<char>, needle: &Vec<char>, at: usize) -> (r: bool)
    requires
        at + needle.len() <= hay.len(),
    ensures
        r == (hay@.subrange(at as int, at + needle.len()) == needle@),
{
    let mut j: usize = 0;
    while j < needle.len()
        invariant
            at + needle.len() <= hay.len(),
            j <= needle.len(),
            hay@.subrange(at as int, at + j) == needle@.take(j as int),
        decreases needle.len() - j,
    {
        if hay[at + j] != needle[j] {
            assert(hay@.subrange(at as int, at + needle.len())[j as int] != needle@[j as int]);
            return false;
        }
        assert(hay@.subrange(at as int, at + j + 1) =~= needle@.take(j + 1));
        j = j + 1;
    }
    assert(needle@.take(j as int) =~= needle@);
    true
}

/// Whether `needle` occurs anywhere in `hay`.
fn occurs_in(hay: &Vec<char>, needle: &Vec<char>) -> (r: bool)
    ensures
        r == passes_filter(hay@, needle@),
{
    if needle.len() > hay.len() {
        return false;
    }
    let last = hay.len() - needle.len();
    let mut at: usize = 0;
    loop
        invariant
            last == hay.len() - needle.len(),
            at <= last,
            forall|i: int| 0 <= i < at ==> #[trigger] hay@.subrange(i, i + needle.len()) != needle@,
        decreases last - at,
    {
        if occurs_at(hay, needle, at) {
            return true;
        }
        if at == last {
            return false;
        }
        at = at + 1;
    }
}


/// Where `k` goes in `order`: before the first entry whose key comes after its key.
fn insertion_point(keys: &Vec<Vec<u64>>, order: &Vec<usize>, k: usize) -> (p: usize)
    requires
        k < keys.len(),
        forall|i: int| 0 <= i < order.len() ==> #[trigger] order[i] < keys.len(),
    ensures
        p <= order.len(),
        forall|i: int| 0 <= i < p ==> !key_lt(keys@[k as int]@, #[trigger] keys@[order[i] as int]@),
        p < order.len() ==> key_lt(keys@[k as int]@, keys@[order[p as int] as int]@),
{
    let mut p: usize = 0;
    while p < order.len()
        invariant
            p <= order.len(),
            k < keys.len(),
            forall|i: int| 0 <= i < order.len() ==> #[trigger] order[i] < keys.len(),
            forall|i: int| 0 <= i < p ==> !key_lt(keys@[k as int]@, #[trigger] keys@[order[i] as int]@),
        decreases order.len() - p,
    {
        if key_less(&keys[k], &keys[order[p]]) {
            return p;
        }
        p = p + 1;
    }
    p
}

/// The processes of `items` whose lower-case name `folded[k]` holds `needle`,
/// ordered by `mode`; processes with equal keys keep their input order.
pub fn select_and_sort(items: &Vec<ProcessInfo>, folded: &Vec<String>, needle: &str, mode: SortBy) -> (r: Vec<ProcessInfo>)
    requires
        folded.len() == items.len(),
    ensures
        r@ == sorted_view(mode, items@, folded@.map_values(|s: String| s@), needle@),
        is_display_order(
            process_keys(mode, items@, folded@.map_values(|s: String| s@)),
            filter_marks(folded@.map_values(|s: String| s@), needle@),
            display_order(
                process_keys(mode, items@, folded@.map_values(|s: String| s@)),
                filter_marks(folded@.map_values(|s: String| s@), needle@),
            ),
        ),
{
    let n = items.len();
    let ghost fview = folded@.map_values(|s: String| s@);
    let ghost kseq = process_keys(mode, items@, fview);
    let ghost marks = filter_marks(fview, needle@);
    let needle_chars = char_vec(needle);

    let mut keys: Vec<Vec<u64>> = Vec::new();
    let mut keep: Vec<bool> = Vec::new();
    let mut k: usize = 0;
    while k < n
        invariant
            n == items.len(),
            n == folded.len(),
            fview == folded@.map_values(|s: String| s@),
            kseq == process_keys(mode, items@, fview),
            marks == filter_marks(fview, needle@),
            needle_chars@ == needle@,
            k <= n,
            keys.len() == k,
            keep.len() == k,
            forall|i: int| 0 <= i < k ==> #[trigger] keys@[i]@ == kseq[i],
            forall|i: int| 0 <= i < k ==> #[trigger] keep@[i] == marks[i],
        decreases n - k,
    {
        let name_chars = char_vec(folded[k].as_str());
        keys.push(make_key(mode, &items[k], &name_chars));
        keep.push(occurs_in(&name_chars, &needle_chars));
        k = k + 1;
    }

    let mut order: Vec<usize> = Vec::new();
    let mut k: usize = 0;
    while k < n
        invariant
            n == items.len(),
            n == keys.len(),
            n == keep.len(),
            kseq.len() == n,
            marks.len() == n,
            forall|i: int| 0 <= i < n ==> #[trigger] keys@[i]@ == kseq[i],
            forall|i: int| 0 <= i < n ==> #[trigger] keep@[i] == marks[i],
            k <= n,
            orders_prefix(kseq, marks, order@, k as nat),
        decreases n - k,
    {
        let ghost old_order = order@;
        if keep[k] {
            let p = insertion_point(&keys, &order, k);
            order.insert(p, k);
            proof {
                // `insertion_point` finds the same position as `insertion_index`
                let kk = k as int;
                let q = insertion_index(kseq, old_order, kk);
                lemma_insertion_index(kseq, old_order, kk);
                if p < q {
                    assert(!key_lt(kseq[kk], kseq[old_order[p as int] as int]));
                    assert(keys@[old_order[p as int] as int]@ == kseq[old_order[p as int] as int]);
                } else if q < p {
                    assert(!key_lt(keys@[kk]@, keys@[old_order[q as int] as int]@));
                    assert(keys@[old_order[q as int] as int]@ == kseq[old_order[q as int] as int]);
                }
            }
        }
        proof {
            let next = lemma_orders_prefix_extend(kseq, marks, old_order, k as nat);
            assert(order@ =~= next);
        }
        k = k + 1;
    }
    proof {
        assert(is_display_order(kseq, marks, order@));
        lemma_display_order_unique(kseq, marks, order@, display_order(kseq, marks));
    }

    let mut r: Vec<ProcessInfo> = Vec::new();
    let mut i: usize = 0;
    while i < order.len()
        invariant
            n == items.len(),
            forall|j: int| 0 <= j < order.len() ==> #[trigger] order[j] < n,
            i <= order.len(),
            r@ == order@.take(i as int).map_values(|k: usize| items@[k as int]),
        decreases order.len() - i,
    {
        r.push(items[order[i]].copied());
        assert(order@.take(i + 1).map_values(|k: usize| items@[k as int])
            =~= order@.take(i as int).map_values(|k: usize| items@[k as int]).push(items@[order[i as int] as int]));
        i = i + 1;
    }
    assert(order@.take(order.len() as int) =~= order@);
    r
}


/// The lower-case names of `procs`.
pub open spec fn folded_names(procs: Seq<ProcessInfo>) -> Seq<Seq<char>> {
    procs.map_values(|p: ProcessInfo| lowercase(p.name@))
}

/// The sort mode that follows `mode` when the user toggles it.
pub open spec fn next_sort(mode: SortBy) -> SortBy {
    match mode {
        SortBy::Cpu => SortBy::Memory,
        SortBy::Memory => SortBy::Pid,
        SortBy::Pid => SortBy::Name,
        SortBy::Name => SortBy::Cpu,
    }
}

/// Sorting, selection and filtering state of the process table.
pub struct ProcessManager {
    pub sort_mode: SortBy,
    pub selected_pid: Option<u32>,
    /// Only processes whose name holds this text (ignoring case) are listed.
    pub filter: String,
}

impl ProcessManager {
    /// The processes of `procs` the table shows, in order.
    pub open spec fn shown(&self, procs: Seq<ProcessInfo>) -> Seq<ProcessInfo> {
        sorted_view(self.sort_mode, procs, folded_names(procs), lowercase(self.filter@))
    }

    /// Sorting by CPU usage, nothing selected, no filter.
    pub fn new() -> (r: Self)
        ensures
            r.sort_mode == SortBy::Cpu,
            r.selected_pid is None,
            r.filter@ == Seq::<char>::empty(),
    {
        ProcessManager { sort_mode: SortBy::Cpu, selected_pid: None, filter: String::new() }
    }

    /// The processes whose lower-case name holds the lower-case filter, in the
    /// current sort order (stable with respect to the order of `procs`).
    pub fn get_sorted_processes(&self, procs: &Vec<ProcessInfo>) -> (r: Vec<ProcessInfo>)
        ensures
            r@ == sorted_view(self.sort_mode, procs@, folded_names(procs@), lowercase(self.filter@)),
            r@ == self.shown(procs@),
            is_display_order(
                process_keys(self.sort_mode, procs@, folded_names(procs@)),
                filter_marks(folded_names(procs@), lowercase(self.filter@)),
                display_order(
                    process_keys(self.sort_mode, procs@, folded_names(procs@)),
                    filter_marks(folded_names(procs@), lowercase(self.filter@)),
                ),
            ),
            self.filter@.len() == 0 ==> forall|k: int|
                0 <= k < procs.len() ==> #[trigger] filter_marks(folded_names(procs@), lowercase(self.filter@))[k],
    {
        let mut folded: Vec<String> = Vec::new();
        let mut k: usize = 0;
        while k < procs.len()
            invariant
                k <= procs.len(),
                folded.len() == k,
                forall|i: int| 0 <= i < k ==> (#[trigger] folded@[i])@ == lowercase(procs@[i].name@),
            decreases procs.len() - k,
        {
            folded.push(to_lowercase(procs[k].name.as_str()));
            k = k + 1;
        }
        assert(folded@.map_values(|s: String| s@) =~= folded_names(procs@));
        let needle = to_lowercase(self.filter.as_str());
        proof {
            if self.filter@.len() == 0 {
                assert(needle@ =~= Seq::<char>::empty());
                assert forall|k: int| 0 <= k < procs.len() implies #[trigger] filter_marks(
                    folded_names(procs@),
                    lowercase(self.filter@),
                )[k] by {
                    lemma_empty_filter_keeps_all(folded_names(procs@)[k]);
                }
            }
        }
        select_and_sort(procs, &folded, needle.as_str(), self.sort_mode)
    }

    /// Moves to the next sort mode: CPU, memory, PID, name, then CPU again.
    pub fn toggle_sort(&mut self)
        ensures
            final(self).sort_mode == next_sort(old(self).sort_mode),
            final(self).selected_pid == old(self).selected_pid,
            final(self).filter == old(self).filter,
    {
        self.sort_mode = match self.sort_mode {
            SortBy::Cpu => SortBy::Memory,
            SortBy::Memory => SortBy::Pid,
            SortBy::Pid => SortBy::Name,
            SortBy::Name => SortBy::Cpu,
        };
    }

    /// Replaces the filter text.
    pub fn set_filter(&mut self, filter: String)
        ensures
            final(self).filter == filter,
            final(self).sort_mode == old(self).sort_mode,
            final(self).selected_pid == old(self).selected_pid,
    {
        self.filter = filter;
    }
}

/// Toggling the sort mode four times brings it back.
pub proof fn lemma_toggle_sort_cycles(mode: SortBy)
    ensures
        next_sort(next_sort(next_sort(next_sort(mode)))) == mode,
        next_sort(mode) != mode,
{
}

/// An empty filter lets every process through.
pub proof fn lemma_empty_filter_keeps_all(name: Seq<char>)
    ensures
        passes_filter(name, Seq::<char>::empty()),
{
    let needle = Seq::<char>::empty();
    assert(name.subrange(0int, 0int + needle.len()) =~= needle);
}


/// `needle` occurs in `name` starting at position `at`, character by character.
pub open spec fn occurs_at_position(name: Seq<char>, needle: Seq<char>, at: int) -> bool {
    &&& 0 <= at
    &&& at + needle.len() <= name.len()
    &&& forall|t: int| 0 <= t < needle.len() ==> name[at + t] == #[trigger] needle[t]
}

/// A name passes the filter exactly when the whole filter text occurs in it,
/// character by character, at some position.
pub proof fn lemma_filter_is_substring(name: Seq<char>, needle: Seq<char>)
    ensures
        passes_filter(name, needle) <==> exists|at: int| occurs_at_position(name, needle, at),
        needle.len() > name.len() ==> !passes_filter(name, needle),
{
    if passes_filter(name, needle) {
        let at = choose|i: int| 0 <= i <= name.len() - needle.len() && #[trigger] name.subrange(i, i + needle.len()) == needle;
        assert forall|t: int| 0 <= t < needle.len() implies name[at + t] == #[trigger] needle[t] by {
            assert(name.subrange(at, at + needle.len())[t] == name[at + t]);
        }
        assert(occurs_at_position(name, needle, at));
    }
    if exists|at: int| occurs_at_position(name, needle, at) {
        let at = choose|at: int| occurs_at_position(name, needle, at);
        assert(name.subrange(at, at + needle.len()) =~= needle);
    }
}

/// `a` comes strictly before `b` in dictionary order of character codes:
/// `a` is a proper prefix of `b`, or at the first position where they differ
/// the character of `a` has the lower code.
pub open spec fn name_before(a: Seq<char>, b: Seq<char>) -> bool {
    exists|k: int|
        0 <= k <= a.len() && k <= b.len() && #[trigger] a.take(k) == b.take(k) && ((k == a.len() && k < b.len()) || (
        k < a.len() && k < b.len() && (a[k] as u32) < (b[k] as u32)))
}

proof fn lemma_key_lt_witness(x: Seq<u64>, y: Seq<u64>) -> (k: int)
    requires
        key_lt(x, y),
    ensures
        0 <= k <= x.len(),
        k <= y.len(),
        x.take(k) == y.take(k),
        (k == x.len() && k < y.len()) || (k < x.len() && k < y.len() && x[k] < y[k]),
    decreases x.len(),
{
    if x.len() == 0 || x[0] != y[0] {
        assert(x.take(0) =~= y.take(0));
        0
    } else {
        let k = lemma_key_lt_witness(x.drop_first(), y.drop_first());
        assert(x.take(k + 1) =~= seq![x[0]] + x.drop_first().take(k));
        assert(y.take(k + 1) =~= seq![y[0]] + y.drop_first().take(k));
        k + 1
    }
}

proof fn lemma_char_code_injective(c: char, d: char)
    requires
        (c as u32) as u64 == (d as u32) as u64,
    ensures
        c == d,
{
    assert(c as int == d as int);
}

proof fn lemma_chars_key_injective(a: Seq<char>, b: Seq<char>)
    ensures
        chars_key(a) == chars_key(b) ==> a == b,
        forall|k: int| 0 <= k <= a.len() && k <= b.len() && chars_key(a).take(k) == chars_key(b).take(k) ==> #[trigger] a.take(k) == b.take(k),
{
    assert forall|k: int| 0 <= k <= a.len() && k <= b.len() && chars_key(a).take(k) == chars_key(b).take(k) implies #[trigger] a.take(k) == b.take(k) by {
        assert forall|t: int| 0 <= t < k implies a.take(k)[t] == b.take(k)[t] by {
            assert(chars_key(a).take(k)[t] == chars_key(b).take(k)[t]);
            assert(chars_key(a)[t] == chars_key(a).take(k)[t]);
            assert(chars_key(b)[t] == chars_key(b).take(k)[t]);
            assert(chars_key(a)[t] == (a[t] as u32) as u64);
            assert(chars_key(b)[t] == (b[t] as u32) as u64);
            lemma_char_code_injective(a[t], b[t]);
        }
        assert(a.take(k) =~= b.take(k));
    }
    if chars_key(a) == chars_key(b) {
        assert(a.len() == chars_key(a).len());
        assert forall|t: int| 0 <= t < a.len() implies a[t] == b[t] by {
            assert(chars_key(a)[t] == chars_key(b)[t]);
            assert(chars_key(a)[t] == (a[t] as u32) as u64);
            assert(chars_key(b)[t] == (b[t] as u32) as u64);
            lemma_char_code_injective(a[t], b[t]);
        }
        assert(a =~= b);
    }
}

/// How the shown processes relate under each sort mode: `a`, shown above
/// `b`, either has a strictly higher CPU usage bit pattern (memory use), a
/// strictly lower PID, a lower-case name strictly before `b`'s, or ties with
/// `b` on that and came before it in the input.
pub open spec fn shown_above(mode: SortBy, a: ProcessInfo, fa: Seq<char>, ia: int, b: ProcessInfo, fb: Seq<char>, ib: int) -> bool {
    match mode {
        SortBy::Cpu => a.cpu_bits > b.cpu_bits || (a.cpu_bits == b.cpu_bits && ia < ib),
        SortBy::Memory => a.memory > b.memory || (a.memory == b.memory && ia < ib),
        SortBy::Pid => a.pid < b.pid || (a.pid == b.pid && ia < ib),
        SortBy::Name => name_before(fa, fb) || (fa == fb && ia < ib),
    }
}

/// The process table: the shown processes are exactly those whose lower-case
/// name holds the filter text, listed highest CPU usage first, highest memory
/// use first, lowest PID first, or by lower-case name, ties in input order.
pub proof fn lemma_shown_table(mode: SortBy, items: Seq<ProcessInfo>, folded: Seq<Seq<char>>, needle: Seq<char>)
    requires
        folded.len() == items.len(),
        items.len() <= usize::MAX,
    ensures
        ({
            let order = display_order(process_keys(mode, items, folded), filter_marks(folded, needle));
            let shown = sorted_view(mode, items, folded, needle);
            &&& shown.len() == order.len()
            &&& forall|i: int| 0 <= i < order.len() ==> order[i] < items.len() && #[trigger] shown[i] == items[order[i] as int]
            &&& forall|k: int|
                0 <= k < items.len() ==> (order.contains(k as usize) <==> exists|at: int| occurs_at_position(#[trigger] folded[k], needle, at))
            &&& forall|i: int, j: int|
                0 <= i < j < order.len() ==> shown_above(
                    mode,
                    items[#[trigger] order[i] as int],
                    folded[order[i] as int],
                    order[i] as int,
                    items[#[trigger] order[j] as int],
                    folded[order[j] as int],
                    order[j] as int,
                )
        }),
{
    let keys = process_keys(mode, items, folded);
    let keep = filter_marks(folded, needle);
    let order = display_order(keys, keep);
    lemma_display_order_exists(keys, keep);
    assert forall|k: int| 0 <= k < items.len() implies (order.contains(k as usize) <==> exists|at: int| occurs_at_position(#[trigger] folded[k], needle, at)) by {
        lemma_filter_is_substring(folded[k], needle);
        assert(keep[k] == passes_filter(folded[k], needle));
    }
    assert forall|i: int, j: int| 0 <= i < j < order.len() implies shown_above(
        mode,
        items[#[trigger] order[i] as int],
        folded[order[i] as int],
        order[i] as int,
        items[#[trigger] order[j] as int],
        folded[order[j] as int],
        order[j] as int,
    ) by {
        let x = order[i] as int;
        let y = order[j] as int;
        assert(ranked_before(keys, x, y));
        let kx = keys[x];
        let ky = keys[y];
        assert(kx == sort_key(mode, items[x], folded[x]));
        assert(ky == sort_key(mode, items[y], folded[y]));
        match mode {
            SortBy::Name => {
                lemma_chars_key_injective(folded[x], folded[y]);
                if key_lt(kx, ky) {
                    let k = lemma_key_lt_witness(kx, ky);
                    assert(folded[x].take(k) == folded[y].take(k));
                    if k < kx.len() {
                        assert(kx[k] == (folded[x][k] as u32) as u64);
                        assert(ky[k] == (folded[y][k] as u32) as u64);
                    }
                    assert(name_before(folded[x], folded[y]));
                }
                assert(shown_above(mode, items[x], folded[x], x, items[y], folded[y], y));
            },
            _ => {
                // Numeric keys hold one number each: the order is that of the numbers.
                assert(kx.len() == 1 && ky.len() == 1);
                assert(kx.drop_first() =~= Seq::<u64>::empty());
                assert(ky.drop_first() =~= Seq::<u64>::empty());
                assert(!key_lt(Seq::<u64>::empty(), Seq::<u64>::empty()));
                if kx[0] == ky[0] {
                    assert(!key_lt(kx, ky));
                    assert(kx =~= ky);
                } else {
                    assert(key_lt(kx, ky) == (kx[0] < ky[0]));
                    assert(kx != ky);
                }
                assert(shown_above(mode, items[x], folded[x], x, items[y], folded[y], y));
            },
        }
    }
}


/// The names the table filters and sorts by are the lower-case forms of the
/// processes' names, one per process, in order.
pub proof fn lemma_folded_names(procs: Seq<ProcessInfo>)
    ensures
        folded_names(procs).len() == procs.len(),
        forall|k: int| 0 <= k < procs.len() ==> #[trigger] folded_names(procs)[k] == lowercase(procs[k].name@),
{
}

} // verus!
