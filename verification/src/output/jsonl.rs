//! The order of the manifest: the stable sort by relative path and root, what
//! it is, that it exists, and what holds of it.

use vstd::prelude::*;

use crate::record::builder::{record_views, RecordView, VacuumRecord};
use crate::text::{
    compare_text, lemma_text_lt_transitive, lemma_text_lt_trichotomy, text_lt, texts, Order,
};

verus! {

/// What this tool tells of itself to those who operate it: its name, its exit
/// codes, and what comes before and after it in a pipeline.
pub const OPERATOR_MANIFEST: &'static str =
    "{\"schema_version\":\"operator.v0\",\"name\":\"vacuum\",\"exit_codes\":{\"0\":{\"meaning\":\"SCAN_COMPLETE\"},\"2\":{\"meaning\":\"REFUSAL\"}},\"pipeline\":{\"upstream\":[],\"downstream\":[\"hash\"]}}\n";

/// The schema of a record, as far as it is put out: its title alone.
pub const SCHEMA_STUB: &'static str =
    "{\"$schema\":\"https://json-schema.org/draft/2020-12/schema\",\"title\":\"vacuum.v0\"}";

/// The operator manifest, as one JSON document.
pub fn operator_manifest() -> (text: &'static str)
    ensures
        text@ == OPERATOR_MANIFEST@,
{
    OPERATOR_MANIFEST
}

/// Two records share their sort key: relative path and root.
pub open spec fn same_key(a: RecordView, b: RecordView) -> bool {
    a.relative_path == b.relative_path && a.root == b.root
}

/// The sort key of `a` comes before that of `b`: the relative path decides,
/// byte-wise, and between equal relative paths the root does.
pub open spec fn key_lt(a: RecordView, b: RecordView) -> bool {
    text_lt(a.relative_path, b.relative_path) || (a.relative_path == b.relative_path && text_lt(
        a.root,
        b.root,
    ))
}

/// The sort key of `a` is not behind that of `b`.
pub open spec fn key_le(a: RecordView, b: RecordView) -> bool {
    key_lt(a, b) || same_key(a, b)
}

/// In `records`, the record at place `i` goes before the record at place
/// `j`: by its key, or between equal keys by standing first.
pub open spec fn precedes(records: Seq<RecordView>, i: int, j: int) -> bool {
    key_lt(records[i], records[j]) || (same_key(records[i], records[j]) && i < j)
}

/// The places `0`, `1`, ... up to but without `n`, in order.
pub open spec fn places(n: nat) -> Seq<int> {
    Seq::new(n, |i: int| i)
}

/// `order` names each place of a sequence of length `n` once.
pub open spec fn is_arrangement(order: Seq<int>, n: nat) -> bool {
    order.to_multiset() == places(n).to_multiset()
}

/// `output` is the stable sort of `input`, and `order` says from which place
/// of `input` each record of `output` was taken: every place is taken once,
/// keys never descend, and records of equal keys stay in the order they had.
pub open spec fn is_stable_sort(input: Seq<RecordView>, order: Seq<int>, output: Seq<RecordView>) -> bool {
    &&& is_arrangement(order, input.len())
    &&& output.len() == order.len()
    &&& forall|k: int| 0 <= k < order.len() ==> #[trigger] output[k] == input[order[k]]
    &&& forall|k: int, l: int|
        0 <= k < l < order.len() ==> precedes(input, #[trigger] order[k], #[trigger] order[l])
}

/// Of two records exactly one holds: the first key comes before the second,
/// the keys are the same, or the second comes before the first.
pub proof fn lemma_key_trichotomy(a: RecordView, b: RecordView)
    ensures
        key_lt(a, b) || same_key(a, b) || key_lt(b, a),
        !(key_lt(a, b) && same_key(a, b)),
        !(key_lt(b, a) && same_key(a, b)),
        !(key_lt(a, b) && key_lt(b, a)),
{
    lemma_text_lt_trichotomy(a.relative_path, b.relative_path);
    lemma_text_lt_trichotomy(a.root, b.root);
}

/// The order of keys is transitive.
pub proof fn lemma_key_lt_transitive(a: RecordView, b: RecordView, c: RecordView)
    requires
        key_lt(a, b),
        key_lt(b, c),
    ensures
        key_lt(a, c),
{
    lemma_text_lt_trichotomy(a.relative_path, b.relative_path);
    lemma_text_lt_trichotomy(b.relative_path, c.relative_path);
    if text_lt(a.relative_path, b.relative_path) && text_lt(b.relative_path, c.relative_path) {
        lemma_text_lt_transitive(a.relative_path, b.relative_path, c.relative_path);
    } else if a.relative_path == b.relative_path && b.relative_path == c.relative_path {
        lemma_text_lt_transitive(a.root, b.root, c.root);
    }
}

/// Of two different places exactly one goes before the other, and no place
/// goes before itself.
pub proof fn lemma_precedes_total(records: Seq<RecordView>, i: int, j: int)
    ensures
        i != j ==> precedes(records, i, j) != precedes(records, j, i),
        i == j ==> !precedes(records, i, j),
{
    lemma_key_trichotomy(records[i], records[j]);
}

/// Going before is transitive.
pub proof fn lemma_precedes_transitive(records: Seq<RecordView>, i: int, j: int, k: int)
    requires
        precedes(records, i, j),
        precedes(records, j, k),
    ensures
        precedes(records, i, k),
{
    let a = records[i];
    let b = records[j];
    let c = records[k];
    lemma_key_trichotomy(a, b);
    lemma_key_trichotomy(b, c);
    if key_lt(a, b) && key_lt(b, c) {
        lemma_key_lt_transitive(a, b, c);
    }
}

/// Not going behind is transitive: where `j` does not go before `i` and `k`
/// does not go before `j`, `k` does not go before `i`.
pub proof fn lemma_not_behind_transitive(records: Seq<RecordView>, i: int, j: int, k: int)
    requires
        !precedes(records, j, i),
        !precedes(records, k, j),
    ensures
        !precedes(records, k, i),
{
    lemma_precedes_total(records, i, j);
    lemma_precedes_total(records, j, k);
    lemma_precedes_total(records, i, k);
    if i != j && j != k {
        lemma_precedes_transitive(records, i, j, k);
    }
}

/// The keys of a stable sort never descend.
pub proof fn lemma_stable_sort_is_ordered(
    input: Seq<RecordView>,
    order: Seq<int>,
    output: Seq<RecordView>,
)
    requires
        is_stable_sort(input, order, output),
    ensures
        forall|k: int, l: int|
            0 <= k < l < output.len() ==> key_le(#[trigger] output[k], #[trigger] output[l]),
{
    assert forall|k: int, l: int| 0 <= k < l < output.len() implies key_le(
        #[trigger] output[k],
        #[trigger] output[l],
    ) by {
        assert(precedes(input, order[k], order[l]));
    }
}

/// The first place from `from` on at which `sorted` holds a record whose key
/// comes after that of `record`; the length of `sorted` where there is none.
spec fn place_after(sorted: Seq<RecordView>, record: RecordView, from: int) -> int
    decreases sorted.len() - from,
{
    if from < 0 || from >= sorted.len() {
        sorted.len() as int
    } else if key_lt(record, sorted[from]) {
        from
    } else {
        place_after(sorted, record, from + 1)
    }
}

proof fn lemma_place_after(sorted: Seq<RecordView>, record: RecordView, from: int)
    requires
        0 <= from <= sorted.len(),
    ensures
        from <= place_after(sorted, record, from) <= sorted.len(),
        forall|k: int|
            from <= k < place_after(sorted, record, from) ==> !key_lt(record, #[trigger] sorted[k]),
        place_after(sorted, record, from) < sorted.len() ==> key_lt(
            record,
            sorted[place_after(sorted, record, from)],
        ),
    decreases sorted.len() - from,
{
    if from < sorted.len() && !key_lt(record, sorted[from]) {
        lemma_place_after(sorted, record, from + 1);
    }
}

/// A stable sort of all but the last record becomes one of all records once
/// the last record is put in behind the records whose keys are not greater.
proof fn lemma_insert_last(input: Seq<RecordView>, before: Seq<int>, sorted: Seq<RecordView>)
    requires
        input.len() > 0,
        is_stable_sort(input.drop_last(), before, sorted),
    ensures
        ({
            let place = place_after(sorted, input.last(), 0);
            &&& 0 <= place <= sorted.len()
            &&& forall|k: int| place <= k < sorted.len() ==> key_lt(input.last(), #[trigger] sorted[k])
            &&& is_stable_sort(
                input,
                before.insert(place, input.len() - 1),
                sorted.insert(place, input.last()),
            )
        }),
{
    broadcast use vstd::seq_lib::group_to_multiset_ensures;

    let n = input.len();
    let last = (n - 1) as int;
    let record = input[last];
    let shorter = input.drop_last();
    lemma_arrangement_is_injective(before, shorter.len());
    lemma_stable_sort_is_ordered(shorter, before, sorted);
    lemma_place_after(sorted, record, 0);
    let place = place_after(sorted, record, 0);
    let order = before.insert(place, last);
    let output = sorted.insert(place, record);
    assert forall|k: int| place <= k < sorted.len() implies key_lt(record, #[trigger] sorted[k]) by {
        assert(key_lt(record, sorted[place]));
        if k > place {
            assert(key_le(sorted[place], sorted[k]));
            lemma_key_trichotomy(sorted[place], sorted[k]);
            if key_lt(sorted[place], sorted[k]) {
                lemma_key_lt_transitive(record, sorted[place], sorted[k]);
            }
        }
    }
    assert(is_arrangement(order, n)) by {
        vstd::seq_lib::to_multiset_insert(before, place, last);
        assert(places(n) =~= places((n - 1) as nat).push(last));
        vstd::seq_lib::to_multiset_build(places((n - 1) as nat), last);
    }
    assert forall|k: int| 0 <= k < order.len() implies #[trigger] output[k] == input[order[k]] by {
        if k < place {
            assert(order[k] == before[k]);
            assert(output[k] == sorted[k]);
            assert(sorted[k] == shorter[before[k]]);
        } else if k > place {
            assert(order[k] == before[k - 1]);
            assert(output[k] == sorted[k - 1]);
            assert(sorted[k - 1] == shorter[before[k - 1]]);
        }
    }
    assert forall|k: int, l: int| 0 <= k < l < order.len() implies precedes(
        input,
        #[trigger] order[k],
        #[trigger] order[l],
    ) by {
        let a = if k < place { k } else { k - 1 };
        let b = if l < place { l } else { l - 1 };
        if k != place && l != place {
            assert(order[k] == before[a]);
            assert(order[l] == before[b]);
            assert(precedes(shorter, before[a], before[b]));
            assert(shorter[before[a]] == input[before[a]]);
            assert(shorter[before[b]] == input[before[b]]);
        } else if k == place {
            assert(order[l] == before[b]);
            assert(sorted[b] == shorter[before[b]]);
            assert(key_lt(record, sorted[b]));
        } else {
            assert(order[k] == before[a]);
            assert(sorted[a] == shorter[before[a]]);
            assert(!key_lt(record, sorted[a]));
            lemma_key_trichotomy(sorted[a], record);
        }
    }
}

/// Every sequence of records has a stable sort.
pub proof fn lemma_stable_sort_exists(input: Seq<RecordView>) -> (found: (Seq<int>, Seq<RecordView>))
    ensures
        is_stable_sort(input, found.0, found.1),
    decreases input.len(),
{
    if input.len() == 0 {
        let order = Seq::<int>::empty();
        let output = Seq::<RecordView>::empty();
        assert(order =~= places(0));
        (order, output)
    } else {
        let (before, sorted) = lemma_stable_sort_exists(input.drop_last());
        lemma_insert_last(input, before, sorted);
        let place = place_after(sorted, input.last(), 0);
        (before.insert(place, input.len() - 1), sorted.insert(place, input.last()))
    }
}

/// `output` is the stable sort of `input`.
pub open spec fn sorts_stably(input: Seq<RecordView>, output: Seq<RecordView>) -> bool {
    exists|order: Seq<int>| is_stable_sort(input, order, output)
}

/// The stable sort of a sequence of records: the records ordered by relative
/// path and then by root, both byte-wise, records that share both staying in
/// the order they had.
pub open spec fn stable_sort(input: Seq<RecordView>) -> Seq<RecordView> {
    choose|output: Seq<RecordView>| sorts_stably(input, output)
}

/// The stable sort of a sequence is a stable sort of it, and the only one.
pub proof fn lemma_stable_sort(input: Seq<RecordView>, order: Seq<int>, output: Seq<RecordView>)
    ensures
        sorts_stably(input, stable_sort(input)),
        is_stable_sort(input, order, output) ==> output == stable_sort(input),
{
    let found = lemma_stable_sort_exists(input);
    assert(is_stable_sort(input, found.0, found.1));
    assert(sorts_stably(input, found.1));
    let chosen = choose|chosen: Seq<int>| is_stable_sort(input, chosen, stable_sort(input));
    if is_stable_sort(input, order, output) {
        lemma_stable_sort_unique(input, order, output, chosen, stable_sort(input));
    }
}

/// The keys of a stable sort never descend, and it holds the records of its
/// input, each as often as the input does.
pub proof fn lemma_stable_sort_orders_and_rearranges(input: Seq<RecordView>)
    ensures
        forall|k: int, l: int|
            0 <= k < l < stable_sort(input).len() ==> key_le(
                #[trigger] stable_sort(input)[k],
                #[trigger] stable_sort(input)[l],
            ),
        stable_sort(input).to_multiset() == input.to_multiset(),
        stable_sort(input).len() == input.len(),
        forall|record: RecordView| stable_sort(input).contains(record) <==> input.contains(record),
{
    lemma_stable_sort(input, Seq::empty(), Seq::empty());
    let order = choose|order: Seq<int>| is_stable_sort(input, order, stable_sort(input));
    lemma_stable_sort_is_ordered(input, order, stable_sort(input));
    lemma_stable_sort_is_permutation(input, order, stable_sort(input));
}

/// The records of `records` that share the key of `key`, in their order.
pub open spec fn with_key(records: Seq<RecordView>, key: RecordView) -> Seq<RecordView> {
    records.filter(|record: RecordView| same_key(record, key))
}

/// The keys of `records` never descend.
pub open spec fn ordered(records: Seq<RecordView>) -> bool {
    forall|k: int, l: int|
        0 <= k < l < records.len() ==> key_le(#[trigger] records[k], #[trigger] records[l])
}

/// Sorting is stable: the records of one key stand in the stable sort as they
/// stood in the input.
pub proof fn lemma_stable_sort_keeps_each_key(input: Seq<RecordView>, key: RecordView)
    ensures
        with_key(stable_sort(input), key) == with_key(input, key),
    decreases input.len(),
{
    let has_key = |record: RecordView| same_key(record, key);
    lemma_stable_sort_orders_and_rearranges(input);
    if input.len() == 0 {
        assert(stable_sort(input) =~= input);
    } else {
        let shorter = input.drop_last();
        let record = input.last();
        let sorted = stable_sort(shorter);
        lemma_stable_sort(shorter, Seq::empty(), Seq::empty());
        let before = choose|before: Seq<int>| is_stable_sort(shorter, before, sorted);
        lemma_insert_last(input, before, sorted);
        let place = place_after(sorted, record, 0);
        let output = sorted.insert(place, record);
        lemma_stable_sort(input, before.insert(place, input.len() - 1), output);
        lemma_stable_sort_keeps_each_key(shorter, key);
        let front = sorted.subrange(0, place);
        let back = sorted.subrange(place, sorted.len() as int);
        assert(sorted =~= front + back);
        assert(output =~= front.push(record) + back);
        assert(input =~= shorter.push(record));
        Seq::filter_distributes_over_add(front, back, has_key);
        Seq::filter_distributes_over_add(front.push(record), back, has_key);
        front.lemma_filter_push(record, has_key);
        shorter.lemma_filter_push(record, has_key);
        if same_key(record, key) {
            assert(back.all(|other: RecordView| !has_key(other))) by {
                assert forall|k: int| 0 <= k < back.len() implies !has_key(#[trigger] back[k]) by {
                    assert(back[k] == sorted[place + k]);
                    lemma_key_trichotomy(record, back[k]);
                }
            }
            back.lemma_all_neg_filter_empty(has_key);
            assert(back.filter(has_key) =~= Seq::<RecordView>::empty());
            assert(front.filter(has_key).push(record) + Seq::<RecordView>::empty()
                =~= (front.filter(has_key) + Seq::<RecordView>::empty()).push(record));
        }
    }
}

proof fn lemma_first_with_key(records: Seq<RecordView>, key: RecordView)
    requires
        records.len() > 0,
    ensures
        with_key(records, key) == (if same_key(records[0], key) {
            seq![records[0]]
        } else {
            Seq::empty()
        }) + with_key(records.drop_first(), key),
{
    let has_key = |record: RecordView| same_key(record, key);
    assert(records =~= seq![records[0]] + records.drop_first());
    records.drop_first().lemma_filter_prepend(records[0], has_key);
}

/// Records whose keys never descend are told by what they hold of each key:
/// two such sequences that hold, of every key, the same records in the same
/// order are the same sequence.
pub proof fn lemma_ordered_records_are_told_by_their_keys(u: Seq<RecordView>, v: Seq<RecordView>)
    requires
        ordered(u),
        ordered(v),
        forall|key: RecordView| with_key(u, key) == with_key(v, key),
    ensures
        u == v,
    decreases u.len(),
{
    broadcast use vstd::seq_lib::group_filter_ensures;

    if u.len() == 0 {
        if v.len() > 0 {
            lemma_first_with_key(v, v[0]);
            assert(with_key(v, v[0]).len() > 0);
            assert(with_key(u, v[0]).len() == 0);
        }
        assert(u =~= v);
    } else {
        let a = u[0];
        lemma_first_with_key(u, a);
        assert(with_key(u, a)[0] == a);
        assert(with_key(v, a).len() > 0);
        assert(v.len() > 0);
        let b = v[0];
        lemma_first_with_key(v, b);
        assert(with_key(v, b)[0] == b);
        assert(same_key(a, b)) by {
            let shares_a = |record: RecordView| same_key(record, a);
            let shares_b = |record: RecordView| same_key(record, b);
            assert(with_key(v, a).contains(a));
            v.lemma_filter_contains_rev(shares_a, a);
            let j = choose|j: int| 0 <= j < v.len() && v[j] == a;
            assert(key_le(b, a)) by {
                if j > 0 {
                    assert(key_le(v[0], v[j]));
                }
            }
            assert(with_key(u, b).contains(b));
            u.lemma_filter_contains_rev(shares_b, b);
            let i = choose|i: int| 0 <= i < u.len() && u[i] == b;
            assert(key_le(a, b)) by {
                if i > 0 {
                    assert(key_le(u[0], u[i]));
                }
            }
            lemma_key_trichotomy(a, b);
        }
        lemma_first_with_key(v, a);
        assert(with_key(v, a)[0] == b);
        assert(a == b);
        let shorter_u = u.drop_first();
        let shorter_v = v.drop_first();
        assert forall|key: RecordView| with_key(shorter_u, key) == with_key(shorter_v, key) by {
            lemma_first_with_key(u, key);
            lemma_first_with_key(v, key);
            let head: Seq<RecordView> = if same_key(a, key) {
                seq![a]
            } else {
                Seq::empty()
            };
            assert((head + with_key(shorter_u, key)).skip(head.len() as int) =~= with_key(
                shorter_u,
                key,
            ));
            assert((head + with_key(shorter_v, key)).skip(head.len() as int) =~= with_key(
                shorter_v,
                key,
            ));
        }
        assert(ordered(shorter_u)) by {
            assert forall|k: int, l: int| 0 <= k < l < shorter_u.len() implies key_le(
                #[trigger] shorter_u[k],
                #[trigger] shorter_u[l],
            ) by {
                assert(key_le(u[k + 1], u[l + 1]));
            }
        }
        assert(ordered(shorter_v)) by {
            assert forall|k: int, l: int| 0 <= k < l < shorter_v.len() implies key_le(
                #[trigger] shorter_v[k],
                #[trigger] shorter_v[l],
            ) by {
                assert(key_le(v[k + 1], v[l + 1]));
            }
        }
        lemma_ordered_records_are_told_by_their_keys(shorter_u, shorter_v);
        assert(u =~= seq![a] + shorter_u);
        assert(v =~= seq![b] + shorter_v);
    }
}

/// Two sequences of records have the same stable sort exactly when they hold,
/// of every key, the same records in the same order.
pub proof fn lemma_same_sort_iff_same_keys(a: Seq<RecordView>, b: Seq<RecordView>)
    ensures
        stable_sort(a) == stable_sort(b) <==> forall|key: RecordView|
            with_key(a, key) == with_key(b, key),
{
    assert forall|key: RecordView|
        with_key(stable_sort(a), key) == with_key(a, key) && with_key(stable_sort(b), key)
            == with_key(b, key) by {
        lemma_stable_sort_keeps_each_key(a, key);
        lemma_stable_sort_keeps_each_key(b, key);
    }
    if forall|key: RecordView| with_key(a, key) == with_key(b, key) {
        lemma_stable_sort_orders_and_rearranges(a);
        lemma_stable_sort_orders_and_rearranges(b);
        assert forall|key: RecordView|
            with_key(stable_sort(a), key) == with_key(stable_sort(b), key) by {
            assert(with_key(stable_sort(a), key) == with_key(a, key));
            assert(with_key(stable_sort(b), key) == with_key(b, key));
        }
        lemma_ordered_records_are_told_by_their_keys(stable_sort(a), stable_sort(b));
    }
}

/// Places held as machine integers, read as integers.
pub open spec fn ints(order: Seq<usize>) -> Seq<int> {
    order.map_values(|place: usize| place as int)
}

/// Every place named by `order` lies within a sequence of length `n`.
pub open spec fn within(order: Seq<usize>, n: nat) -> bool {
    forall|k: int| 0 <= k < order.len() ==> (#[trigger] order[k]) < n
}

/// No place named later in `order` goes before one named earlier.
pub open spec fn ascending(records: Seq<RecordView>, order: Seq<usize>) -> bool {
    forall|k: int, l: int|
        0 <= k < l < order.len() ==> !precedes(
            records,
            (#[trigger] order[l]) as int,
            (#[trigger] order[k]) as int,
        )
}

proof fn lemma_ints_push(order: Seq<usize>, place: usize)
    ensures
        ints(order.push(place)) == ints(order).push(place as int),
        ints(order.push(place)).to_multiset() == ints(order).to_multiset().insert(place as int),
{
    assert(ints(order.push(place)) =~= ints(order).push(place as int));
    vstd::seq_lib::to_multiset_build(ints(order), place as int);
}

/// Whether the record at place `i` goes before the record at place `j`.
fn goes_before(records: &[VacuumRecord], i: usize, j: usize) -> (before: bool)
    requires
        i < records.len(),
        j < records.len(),
    ensures
        before == precedes(record_views(records@), i as int, j as int),
{
    let a = &records[i];
    let b = &records[j];
    proof {
        lemma_text_lt_trichotomy(a@.relative_path, b@.relative_path);
        lemma_text_lt_trichotomy(a@.root, b@.root);
    }
    match compare_text(a.relative_path.as_str(), b.relative_path.as_str()) {
        Order::Less => true,
        Order::Greater => false,
        Order::Equal => match compare_text(a.root.as_str(), b.root.as_str()) {
            Order::Less => true,
            Order::Greater => false,
            Order::Equal => i < j,
        },
    }
}

/// Merges two ascending runs of places into one.
fn merge(records: &[VacuumRecord], left: &Vec<usize>, right: &Vec<usize>) -> (out: Vec<usize>)
    requires
        within(left@, records@.len()),
        within(right@, records@.len()),
        ascending(record_views(records@), left@),
        ascending(record_views(records@), right@),
    ensures
        within(out@, records@.len()),
        ascending(record_views(records@), out@),
        ints(out@).to_multiset() == ints(left@).to_multiset().add(ints(right@).to_multiset()),
{
    let ghost views = record_views(records@);
    let mut out: Vec<usize> = Vec::new();
    let mut i: usize = 0;
    let mut j: usize = 0;
    proof {
        let none = Seq::<int>::empty();
        assert(ints(out@) =~= none);
        assert(ints(left@.take(0)) =~= none);
        assert(ints(right@.take(0)) =~= none);
        assert(none + none =~= none);
        vstd::seq_lib::lemma_multiset_commutative(none, none);
    }
    while i < left.len() || j < right.len()
        invariant
            i <= left.len(),
            j <= right.len(),
            views == record_views(records@),
            within(left@, records@.len()),
            within(right@, records@.len()),
            ascending(views, left@),
            ascending(views, right@),
            within(out@, records@.len()),
            ascending(views, out@),
            forall|k: int, p: int|
                0 <= k < out.len() && i <= p < left.len() ==> !precedes(
                    views,
                    (#[trigger] left@[p]) as int,
                    (#[trigger] out@[k]) as int,
                ),
            forall|k: int, q: int|
                0 <= k < out.len() && j <= q < right.len() ==> !precedes(
                    views,
                    (#[trigger] right@[q]) as int,
                    (#[trigger] out@[k]) as int,
                ),
            ints(out@).to_multiset() == ints(left@.take(i as int)).to_multiset().add(
                ints(right@.take(j as int)).to_multiset(),
            ),
        decreases (left.len() - i) + (right.len() - j),
    {
        let from_right = if i == left.len() {
            true
        } else if j == right.len() {
            false
        } else {
            goes_before(records, right[j], left[i])
        };
        let ghost before = out@;
        if from_right {
            let place = right[j];
            out.push(place);
            proof {
                lemma_ints_push(before, place);
                lemma_ints_push(right@.take(j as int), place);
                assert(right@.take(j + 1) =~= right@.take(j as int).push(place));
                assert(ints(before).to_multiset().insert(place as int) =~= ints(
                    left@.take(i as int),
                ).to_multiset().add(ints(right@.take(j + 1)).to_multiset()));
                assert forall|k: int, p: int|
                    0 <= k < out.len() && i <= p < left.len() implies !precedes(
                    views,
                    (#[trigger] left@[p]) as int,
                    (#[trigger] out@[k]) as int,
                ) by {
                    if k == before.len() {
                        lemma_precedes_total(views, place as int, left@[i as int] as int);
                        if p > i {
                            lemma_not_behind_transitive(
                                views,
                                place as int,
                                left@[i as int] as int,
                                left@[p] as int,
                            );
                        }
                    }
                }
            }
            j += 1;
        } else {
            let place = left[i];
            out.push(place);
            proof {
                lemma_ints_push(before, place);
                lemma_ints_push(left@.take(i as int), place);
                assert(left@.take(i + 1) =~= left@.take(i as int).push(place));
                assert(ints(before).to_multiset().insert(place as int) =~= ints(
                    left@.take(i + 1),
                ).to_multiset().add(ints(right@.take(j as int)).to_multiset()));
                assert forall|k: int, q: int|
                    0 <= k < out.len() && j <= q < right.len() implies !precedes(
                    views,
                    (#[trigger] right@[q]) as int,
                    (#[trigger] out@[k]) as int,
                ) by {
                    if k == before.len() {
                        if q > j {
                            lemma_not_behind_transitive(
                                views,
                                place as int,
                                right@[j as int] as int,
                                right@[q] as int,
                            );
                        }
                    }
                }
            }
            i += 1;
        }
    }
    proof {
        assert(left@.take(left@.len() as int) == left@);
        assert(right@.take(right@.len() as int) == right@);
    }
    out
}

/// Sorts a run of places so that none goes before an earlier one.
fn sort_places(records: &[VacuumRecord], order: Vec<usize>) -> (out: Vec<usize>)
    requires
        within(order@, records@.len()),
    ensures
        within(out@, records@.len()),
        ascending(record_views(records@), out@),
        ints(out@).to_multiset() == ints(order@).to_multiset(),
    decreases order.len(),
{
    if order.len() <= 1 {
        return order;
    }
    let mut left = order;
    let ghost whole = left@;
    let half = left.len() / 2;
    let right = left.split_off(half);
    proof {
        assert(whole =~= left@ + right@);
        assert(ints(whole) =~= ints(left@) + ints(right@));
        vstd::seq_lib::lemma_multiset_commutative(ints(left@), ints(right@));
    }
    let left = sort_places(records, left);
    let right = sort_places(records, right);
    merge(records, &left, &right)
}

/// The places of a sequence of length `n`, in order.
fn all_places(n: usize) -> (order: Vec<usize>)
    ensures
        ints(order@) == places(n as nat),
        within(order@, n as nat),
{
    let mut order: Vec<usize> = Vec::new();
    let mut i: usize = 0;
    while i < n
        invariant
            i <= n,
            order.len() == i,
            forall|k: int| 0 <= k < i ==> order@[k] == k,
        decreases n - i,
    {
        order.push(i);
        i += 1;
    }
    assert(ints(order@) =~= places(n as nat));
    order
}

/// Arrangements name no place twice, and only places that exist.
pub proof fn lemma_arrangement_is_injective(order: Seq<int>, n: nat)
    requires
        is_arrangement(order, n),
    ensures
        order.len() == n,
        order.no_duplicates(),
        forall|k: int| 0 <= k < order.len() ==> 0 <= #[trigger] order[k] < n,
{
    broadcast use vstd::seq_lib::group_to_multiset_ensures;

    let all = places(n);
    assert(all.no_duplicates());
    all.lemma_multiset_has_no_duplicates();
    order.lemma_multiset_has_no_duplicates_conv();
    assert(order.len() == order.to_multiset().len());
    assert(all.len() == all.to_multiset().len());
    assert forall|k: int| 0 <= k < order.len() implies 0 <= #[trigger] order[k] < n by {
        assert(order.contains(order[k]));
        assert(all.to_multiset().count(order[k]) > 0);
        assert(all.contains(order[k]));
        let at = choose|at: int| 0 <= at < all.len() && all[at] == order[k];
        assert(all[at] == at);
    }
}

/// The records in the order in which the manifest lists them: by relative
/// path, then by root, both byte-wise; records that share both stay in the
/// order they came in.
pub fn sorted_records(records: &[VacuumRecord]) -> (sorted: Vec<VacuumRecord>)
    ensures
        record_views(sorted@) == stable_sort(record_views(records@)),
        forall|k: int, l: int|
            0 <= k < l < sorted.len() ==> key_le(#[trigger] sorted[k]@, #[trigger] sorted[l]@),
        sorted.len() == records.len(),
        record_views(sorted@).to_multiset() == record_views(records@).to_multiset(),
{
    let ghost views = record_views(records@);
    let order = sort_places(records, all_places(records.len()));
    let ghost arrangement = ints(order@);
    proof {
        lemma_arrangement_is_injective(arrangement, views.len());
    }
    let mut sorted: Vec<VacuumRecord> = Vec::new();
    let mut k: usize = 0;
    while k < order.len()
        invariant
            k <= order.len(),
            order.len() == records.len(),
            within(order@, records@.len()),
            views == record_views(records@),
            sorted.len() == k,
            forall|m: int| 0 <= m < k ==> (#[trigger] sorted[m])@ == views[order@[m] as int],
        decreases order.len() - k,
    {
        sorted.push(records[order[k]].clone());
        k += 1;
    }
    proof {
        let output = record_views(sorted@);
        assert forall|a: int, b: int| 0 <= a < b < arrangement.len() implies precedes(
            views,
            #[trigger] arrangement[a],
            #[trigger] arrangement[b],
        ) by {
            lemma_precedes_total(views, arrangement[a], arrangement[b]);
        }
        assert(is_stable_sort(views, arrangement, output));
        lemma_stable_sort(views, arrangement, output);
        lemma_stable_sort_is_ordered(views, arrangement, output);
        lemma_stable_sort_is_permutation(views, arrangement, output);
        assert forall|a: int, b: int| 0 <= a < b < sorted.len() implies key_le(
            #[trigger] sorted[a]@,
            #[trigger] sorted[b]@,
        ) by {
            assert(key_le(output[a], output[b]));
        }
    }
    sorted
}

/// A sequence has one stable sort only: two that sort the same input take
/// the records from the same places and give the same output.
pub proof fn lemma_stable_sort_unique(
    input: Seq<RecordView>,
    first_order: Seq<int>,
    first: Seq<RecordView>,
    second_order: Seq<int>,
    second: Seq<RecordView>,
)
    requires
        is_stable_sort(input, first_order, first),
        is_stable_sort(input, second_order, second),
    ensures
        first_order == second_order,
        first == second,
{
    let not_behind = |i: int, j: int| i == j || precedes(input, i, j);
    assert(vstd::relations::total_ordering(not_behind)) by {
        assert forall|i: int, j: int| #[trigger] not_behind(i, j) && #[trigger] not_behind(
            j,
            i,
        ) implies i == j by {
            lemma_precedes_total(input, i, j);
        }
        assert forall|i: int, j: int, k: int| #[trigger] not_behind(i, j) && #[trigger] not_behind(
            j,
            k,
        ) implies not_behind(i, k) by {
            if i != j && j != k {
                lemma_precedes_transitive(input, i, j, k);
            }
        }
        assert forall|i: int, j: int| #[trigger] not_behind(i, j) || #[trigger] not_behind(
            j,
            i,
        ) by {
            lemma_precedes_total(input, i, j);
        }
    }
    assert(vstd::relations::sorted_by(first_order, not_behind));
    assert(vstd::relations::sorted_by(second_order, not_behind));
    vstd::seq_lib::lemma_sorted_unique(first_order, second_order, not_behind);
    assert(first =~= second);
}

/// Sequences that hold the same things as often still do so once every
/// element is mapped.
proof fn lemma_map_keeps_multiset<A, B>(a: Seq<A>, b: Seq<A>, f: spec_fn(A) -> B)
    requires
        a.to_multiset() == b.to_multiset(),
    ensures
        a.map_values(f).to_multiset() == b.map_values(f).to_multiset(),
    decreases a.len(),
{
    broadcast use vstd::seq_lib::group_to_multiset_ensures;
    broadcast use vstd::multiset::group_multiset_axioms;

    a.to_multiset_ensures();
    b.to_multiset_ensures();
    assert(a.len() == b.len());
    if a.len() == 0 {
        assert(a.map_values(f) =~= b.map_values(f));
    } else {
        let x = a.last();
        assert(a.contains(x));
        assert(b.to_multiset().count(x) > 0);
        assert(b.contains(x));
        let i = choose|i: int| 0 <= i < b.len() && b[i] == x;
        let shorter = a.drop_last();
        let without = b.remove(i);
        assert(a.remove(a.len() - 1) =~= shorter);
        assert(shorter.to_multiset() =~= without.to_multiset());
        lemma_map_keeps_multiset(shorter, without, f);
        assert(a.map_values(f) =~= shorter.map_values(f).push(f(x)));
        assert(b.map_values(f).remove(i) =~= without.map_values(f));
        assert(b.map_values(f).to_multiset() =~= without.map_values(f).to_multiset().insert(f(x)));
        assert(a.map_values(f).to_multiset() =~= b.map_values(f).to_multiset());
    }
}

/// A stable sort rearranges: its output holds the records of its input, each
/// as often as the input does.
pub proof fn lemma_stable_sort_is_permutation(
    input: Seq<RecordView>,
    order: Seq<int>,
    output: Seq<RecordView>,
)
    requires
        is_stable_sort(input, order, output),
    ensures
        output.to_multiset() == input.to_multiset(),
        output.len() == input.len(),
        forall|record: RecordView| output.contains(record) <==> input.contains(record),
{
    broadcast use vstd::seq_lib::group_to_multiset_ensures;

    let at = |place: int| input[place];
    lemma_arrangement_is_injective(order, input.len());
    lemma_map_keeps_multiset(order, places(input.len()), at);
    assert(order.map_values(at) =~= output);
    assert(places(input.len()).map_values(at) =~= input);
    assert forall|record: RecordView| output.contains(record) <==> input.contains(record) by {
        assert(output.to_multiset().count(record) == input.to_multiset().count(record));
    }
}

/// The lines of a manifest, from what the encoder made of each record: the
/// encodings that succeeded, in their order.
pub open spec fn manifest_lines(encoded: Seq<Option<String>>) -> Seq<Seq<char>>
    decreases encoded.len(),
{
    if encoded.len() == 0 {
        Seq::empty()
    } else {
        let before = manifest_lines(encoded.drop_last());
        match encoded.last() {
            Some(line) => before.push(line@),
            None => before,
        }
    }
}

/// Puts the manifest together from what the encoder made of each record, the
/// records being sorted: a record that could not be encoded is left out, and
/// the others keep their order.
pub fn serialize_sorted_jsonl(encoded: Vec<Option<String>>) -> (lines: Vec<String>)
    ensures
        texts(lines@) == manifest_lines(encoded@),
{
    let mut lines: Vec<String> = Vec::new();
    proof {
        assert(encoded@.take(0) =~= Seq::<Option<String>>::empty());
        assert(texts(lines@) =~= Seq::<Seq<char>>::empty());
    }
    for item in it: encoded
        invariant
            it.seq() == encoded@,
            texts(lines@) == manifest_lines(encoded@.take(it.index() as int)),
    {
        let ghost before = texts(lines@);
        proof {
            let k = it.index() as int;
            assert(encoded@.take(k + 1).drop_last() == encoded@.take(k));
            assert(encoded@.take(k + 1).last() == item);
        }
        match item {
            Some(line) => {
                lines.push(line);
                proof {
                    assert(texts(lines@) =~= before.push(line@));
                }
            },
            None => {},
        }
    }
    proof {
        assert(encoded@.take(encoded@.len() as int) == encoded@);
    }
    lines
}

} // verus!
