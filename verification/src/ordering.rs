use vstd::prelude::*;
use vstd::string::StrSliceExecFns;
use crate::presets::PresetTask;
use crate::task::Task;

verus! {

/// Strict lexicographic order on character sequences, by code point. This is
/// the order the store's listings use for descriptions, project labels and
/// preset names.
pub open spec fn lex_lt(a: Seq<char>, b: Seq<char>) -> bool
    decreases a.len(),
{
    if b.len() == 0 {
        false
    } else if a.len() == 0 {
        true
    } else if a[0] != b[0] {
        (a[0] as u32) < (b[0] as u32)
    } else {
        lex_lt(a.skip(1), b.skip(1))
    }
}

/// Lexicographic order, admitting equality.
pub open spec fn lex_le(a: Seq<char>, b: Seq<char>) -> bool {
    lex_lt(a, b) || a == b
}

/// Two distinct characters have distinct code points.
proof fn lemma_char_cast_neq(c1: char, c2: char)
    requires
        c1 != c2,
    ensures
        c1 as u32 != c2 as u32,
{
}

/// The lexicographic order is total: two sequences compare one way, the
/// other way, or are equal, and only one of the three.
pub proof fn lemma_lex_trichotomy(a: Seq<char>, b: Seq<char>)
    ensures
        lex_lt(a, b) || lex_lt(b, a) || a == b,
        !(lex_lt(a, b) && lex_lt(b, a)),
        lex_lt(a, b) ==> a != b,
    decreases a.len(),
{
    if b.len() == 0 {
        if a.len() == 0 {
            assert(a =~= b);
        }
    } else if a.len() == 0 {
    } else if a[0] != b[0] {
        lemma_char_cast_neq(a[0], b[0]);
    } else {
        lemma_lex_trichotomy(a.skip(1), b.skip(1));
        if a.skip(1) == b.skip(1) {
            assert forall|i: int| 0 <= i < a.len() implies a[i] == b[i] by {
                if i > 0 {
                    assert(a.skip(1)[i - 1] == b.skip(1)[i - 1]);
                }
            }
            assert(a =~= b);
        }
    }
}

/// The lexicographic order is transitive.
pub proof fn lemma_lex_lt_trans(a: Seq<char>, b: Seq<char>, c: Seq<char>)
    requires
        lex_lt(a, b),
        lex_lt(b, c),
    ensures
        lex_lt(a, c),
    decreases a.len(),
{
    if a.len() == 0 {
    } else {
        if a[0] == b[0] && b[0] == c[0] {
            lemma_lex_lt_trans(a.skip(1), b.skip(1), c.skip(1));
        } else {
            if a[0] != b[0] {
                lemma_char_cast_neq(a[0], b[0]);
            }
            if b[0] != c[0] {
                lemma_char_cast_neq(b[0], c[0]);
            }
            if a[0] != c[0] {
                lemma_char_cast_neq(a[0], c[0]);
            }
        }
    }
}

/// Transitivity of the order admitting equality.
pub proof fn lemma_lex_le_trans(a: Seq<char>, b: Seq<char>, c: Seq<char>)
    requires
        lex_le(a, b),
        lex_le(b, c),
    ensures
        lex_le(a, c),
{
    if a != b && b != c {
        lemma_lex_lt_trans(a, b, c);
    }
}

/// When the first `i` characters agree, the comparison is decided by the
/// remainders.
proof fn lemma_lex_skip(a: Seq<char>, b: Seq<char>, i: int)
    requires
        0 <= i <= a.len(),
        i <= b.len(),
        forall|k: int| 0 <= k < i ==> a[k] == b[k],
    ensures
        lex_lt(a, b) == lex_lt(a.skip(i), b.skip(i)),
    decreases i,
{
    if i > 0 {
        assert forall|k: int| 0 <= k < i - 1 implies a.skip(1)[k] == b.skip(1)[k] by {
            assert(a[k + 1] == b[k + 1]);
        }
        lemma_lex_skip(a.skip(1), b.skip(1), i - 1);
        assert(a.skip(1).skip(i - 1) =~= a.skip(i));
        assert(b.skip(1).skip(i - 1) =~= b.skip(i));
    } else {
        assert(a.skip(0) =~= a);
        assert(b.skip(0) =~= b);
    }
}

/// Decides the strict lexicographic order between two strings.
pub fn str_lt(a: &str, b: &str) -> (r: bool)
    ensures
        r == lex_lt(a@, b@),
{
    let alen = a.unicode_len();
    let blen = b.unicode_len();
    let mut i: usize = 0;
    loop
        invariant
            alen == a@.len(),
            blen == b@.len(),
            0 <= i <= alen,
            i <= blen,
            forall|k: int| 0 <= k < i ==> a@[k] == b@[k],
        decreases alen - i,
    {
        if i == blen {
            proof {
                lemma_lex_skip(a@, b@, i as int);
                assert(b@.skip(i as int) =~= Seq::<char>::empty());
            }
            return false;
        }
        if i == alen {
            proof {
                lemma_lex_skip(a@, b@, i as int);
                assert(a@.skip(i as int) =~= Seq::<char>::empty());
            }
            return true;
        }
        let ca = a.get_char(i);
        let cb = b.get_char(i);
        if ca != cb {
            proof {
                lemma_lex_skip(a@, b@, i as int);
                assert(a@.skip(i as int)[0] == a@[i as int]);
                assert(b@.skip(i as int)[0] == b@[i as int]);
            }
            return (ca as u32) < (cb as u32);
        }
        i = i + 1;
    }
}

/// Decides the lexicographic order, admitting equality, between two strings.
pub fn str_le(a: &str, b: &str) -> (r: bool)
    ensures
        r == lex_le(a@, b@),
{
    let r = !str_lt(b, a);
    proof {
        lemma_lex_trichotomy(a@, b@);
    }
    r
}

/// Decides string equality by characters.
pub fn str_eq(a: &str, b: &str) -> (r: bool)
    ensures
        r == (a@ == b@),
{
    let r1 = str_lt(a, b);
    let r2 = str_lt(b, a);
    proof {
        lemma_lex_trichotomy(a@, b@);
    }
    !r1 && !r2
}

/// The display order of tasks: incomplete before completed; within the same
/// completion state, ascending priority letter; ties broken by ascending
/// description.
pub open spec fn task_le(a: Task, b: Task) -> bool {
    if a.completed != b.completed {
        !a.completed
    } else if a.priority != b.priority {
        (a.priority as u32) < (b.priority as u32)
    } else {
        lex_le(a.description@, b.description@)
    }
}

/// Decides the display order between two tasks.
pub fn task_le_exec(a: &Task, b: &Task) -> (r: bool)
    ensures
        r == task_le(*a, *b),
{
    if a.completed != b.completed {
        !a.completed
    } else if a.priority != b.priority {
        (a.priority as u32) < (b.priority as u32)
    } else {
        str_le(a.description.as_str(), b.description.as_str())
    }
}

/// The display order is total.
pub proof fn lemma_task_le_total(a: Task, b: Task)
    ensures
        task_le(a, b) || task_le(b, a),
{
    lemma_lex_trichotomy(a.description@, b.description@);
}

/// The display order is transitive.
pub proof fn lemma_task_le_trans(a: Task, b: Task, c: Task)
    requires
        task_le(a, b),
        task_le(b, c),
    ensures
        task_le(a, c),
{
    if a.completed == b.completed && b.completed == c.completed && a.priority == b.priority
        && b.priority == c.priority {
        lemma_lex_le_trans(a.description@, b.description@, c.description@);
    }
}

/// A task sequence in display order.
pub open spec fn tasks_sorted(s: Seq<Task>) -> bool {
    forall|i: int, j: int| 0 <= i < j < s.len() ==> task_le(s[i], s[j])
}

/// Sorts tasks into display order. The result is a permutation of the input.
pub fn sort_tasks(v: Vec<Task>) -> (r: Vec<Task>)
    ensures
        tasks_sorted(r@),
        r@.to_multiset() == v@.to_multiset(),
        r@.len() == v@.len(),
{
    let mut rest = v;
    let mut out: Vec<Task> = Vec::new();
    proof {
        broadcast use vstd::seq_lib::group_to_multiset_ensures;
        broadcast use vstd::multiset::group_multiset_axioms;

        assert(out@.to_multiset().add(rest@.to_multiset()) =~= rest@.to_multiset());
    }
    let ghost all = rest@.to_multiset();
    while rest.len() > 0
        invariant
            out@.to_multiset().add(rest@.to_multiset()) == all,
            tasks_sorted(out@),
            forall|i: int, j: int|
                0 <= i < out@.len() && 0 <= j < rest@.len() ==> task_le(out@[i], rest@[j]),
            out@.len() + rest@.len() == all.len(),
        decreases rest.len(),
    {
        let mut best: usize = 0;
        let mut k: usize = 1;
        while k < rest.len()
            invariant
                0 <= best < rest@.len(),
                1 <= k <= rest@.len(),
                forall|m: int| 0 <= m < k ==> task_le(rest@[best as int], rest@[m]),
            decreases rest@.len() - k,
        {
            if task_le_exec(&rest[k], &rest[best]) {
                proof {
                    assert forall|m: int| 0 <= m < k + 1 implies task_le(
                        rest@[k as int],
                        rest@[m],
                    ) by {
                        if m < k {
                            lemma_task_le_trans(rest@[k as int], rest@[best as int], rest@[m]);
                        }
                    }
                }
                best = k;
            } else {
                proof {
                    lemma_task_le_total(rest@[k as int], rest@[best as int]);
                }
            }
            k = k + 1;
        }
        let ghost old_rest = rest@;
        let ghost old_out = out@;
        let x = rest.remove(best);
        out.push(x);
        proof {
            broadcast use vstd::seq_lib::group_to_multiset_ensures;
            broadcast use vstd::multiset::group_multiset_axioms;

            assert(old_rest.contains(x)) by {
                assert(old_rest[best as int] == x);
            }
            assert(rest@.to_multiset() =~= old_rest.to_multiset().remove(x));
            assert(out@.to_multiset() =~= old_out.to_multiset().insert(x));
            assert(out@.to_multiset().add(rest@.to_multiset()) =~= all);
            assert forall|i: int, j: int|
                0 <= i < j < out@.len() implies task_le(out@[i], out@[j]) by {
                if j < out@.len() - 1 {
                    assert(task_le(old_out[i], old_out[j]));
                }
            }
            assert forall|i: int, j: int|
                0 <= i < out@.len() && 0 <= j < rest@.len() implies task_le(
                out@[i],
                rest@[j],
            ) by {
                if j < best {
                    assert(rest@[j] == old_rest[j]);
                } else {
                    assert(rest@[j] == old_rest[j + 1]);
                }
            }
        }
    }
    proof {
        broadcast use vstd::seq_lib::group_to_multiset_ensures;
        broadcast use vstd::multiset::group_multiset_axioms;

        assert(rest@ =~= Seq::<Task>::empty());
        assert(out@.to_multiset().add(rest@.to_multiset()) =~= out@.to_multiset());
    }
    out
}

/// No two positions carry the same key.
pub open spec fn distinct_keys<T>(s: Seq<T>, key: spec_fn(T) -> int) -> bool {
    forall|i: int, j: int| 0 <= i < j < s.len() ==> key(s[i]) != key(s[j])
}

/// A permutation of a sequence whose keys are pairwise distinct again has
/// pairwise distinct keys.
pub proof fn lemma_permutation_distinct_keys<T>(a: Seq<T>, b: Seq<T>, key: spec_fn(T) -> int)
    requires
        a.to_multiset() == b.to_multiset(),
        distinct_keys(a, key),
    ensures
        distinct_keys(b, key),
{
    broadcast use vstd::seq_lib::group_to_multiset_ensures;
    broadcast use vstd::multiset::group_multiset_axioms;

    assert(a.no_duplicates()) by {
        assert forall|i: int, j: int|
            0 <= i < a.len() && 0 <= j < a.len() && i != j implies a[i] != a[j] by {
            if a[i] == a[j] {
                assert(key(a[i]) == key(a[j]));
            }
        }
    }
    a.lemma_multiset_has_no_duplicates();
    b.lemma_multiset_has_no_duplicates_conv();
    assert forall|i: int, j: int| 0 <= i < j < b.len() implies key(b[i]) != key(b[j]) by {
        if key(b[i]) == key(b[j]) {
            assert(b[i] != b[j]);
            assert(b.contains(b[i]) && b.contains(b[j]));
            assert(b.to_multiset().count(b[i]) > 0 && b.to_multiset().count(b[j]) > 0);
            assert(a.to_multiset().count(b[i]) > 0 && a.to_multiset().count(b[j]) > 0);
            assert(a.contains(b[i]) && a.contains(b[j]));
            let i1 = a.lemma_contains_to_index(b[i]);
            let j1 = a.lemma_contains_to_index(b[j]);
            assert(false);
        }
    }
}

/// A preset task sequence in ascending identity order.
pub open spec fn preset_tasks_sorted(s: Seq<PresetTask>) -> bool {
    forall|i: int, j: int| 0 <= i < j < s.len() ==> s[i].id <= s[j].id
}

/// Sorts preset tasks by ascending identity. The result is a permutation of
/// the input.
pub fn sort_preset_tasks(v: Vec<PresetTask>) -> (r: Vec<PresetTask>)
    ensures
        preset_tasks_sorted(r@),
        r@.to_multiset() == v@.to_multiset(),
        r@.len() == v@.len(),
{
    let mut rest = v;
    let mut out: Vec<PresetTask> = Vec::new();
    proof {
        broadcast use vstd::seq_lib::group_to_multiset_ensures;
        broadcast use vstd::multiset::group_multiset_axioms;

        assert(out@.to_multiset().add(rest@.to_multiset()) =~= rest@.to_multiset());
    }
    let ghost all = rest@.to_multiset();
    while rest.len() > 0
        invariant
            out@.to_multiset().add(rest@.to_multiset()) == all,
            preset_tasks_sorted(out@),
            forall|i: int, j: int|
                0 <= i < out@.len() && 0 <= j < rest@.len() ==> out@[i].id <= rest@[j].id,
            out@.len() + rest@.len() == all.len(),
        decreases rest.len(),
    {
        let mut best: usize = 0;
        let mut k: usize = 1;
        while k < rest.len()
            invariant
                0 <= best < rest@.len(),
                1 <= k <= rest@.len(),
                forall|m: int| 0 <= m < k ==> rest@[best as int].id <= rest@[m].id,
            decreases rest@.len() - k,
        {
            if rest[k].id < rest[best].id {
                best = k;
            }
            k = k + 1;
        }
        let ghost old_rest = rest@;
        let ghost old_out = out@;
        let x = rest.remove(best);
        out.push(x);
        proof {
            broadcast use vstd::seq_lib::group_to_multiset_ensures;
            broadcast use vstd::multiset::group_multiset_axioms;

            assert(old_rest.contains(x)) by {
                assert(old_rest[best as int] == x);
            }
            assert(rest@.to_multiset() =~= old_rest.to_multiset().remove(x));
            assert(out@.to_multiset() =~= old_out.to_multiset().insert(x));
            assert(out@.to_multiset().add(rest@.to_multiset()) =~= all);
            assert forall|i: int, j: int|
                0 <= i < out@.len() && 0 <= j < rest@.len() implies out@[i].id <= rest@[j].id by {
                if j < best {
                    assert(rest@[j] == old_rest[j]);
                } else {
                    assert(rest@[j] == old_rest[j + 1]);
                }
            }
        }
    }
    proof {
        broadcast use vstd::seq_lib::group_to_multiset_ensures;
        broadcast use vstd::multiset::group_multiset_axioms;

        assert(rest@ =~= Seq::<PresetTask>::empty());
        assert(out@.to_multiset().add(rest@.to_multiset()) =~= out@.to_multiset());
    }
    out
}


/// A string list in strictly ascending lexicographic order, hence free of
/// duplicates.
pub open spec fn names_sorted(s: Seq<String>) -> bool {
    forall|i: int, j: int| 0 <= i < j < s.len() ==> lex_lt(s[i]@, s[j]@)
}

/// Whether some string of the sequence reads as this text.
pub open spec fn has_name(s: Seq<String>, n: Seq<char>) -> bool {
    exists|i: int| 0 <= i < s.len() && (#[trigger] s[i])@ == n
}

/// Appending a string extends the held texts by exactly that string's text.
proof fn lemma_has_name_push(s: Seq<String>, x: String, n: Seq<char>)
    ensures
        has_name(s.push(x), n) <==> (has_name(s, n) || x@ == n),
{
    if has_name(s.push(x), n) {
        let i = choose|i: int| 0 <= i < s.push(x).len() && (#[trigger] s.push(x)[i])@ == n;
        if i < s.len() {
            assert((s[i])@ == n);
        }
    }
    if has_name(s, n) {
        let i = choose|i: int| 0 <= i < s.len() && (#[trigger] s[i])@ == n;
        assert((s.push(x)[i])@ == n);
    }
    if x@ == n {
        assert((s.push(x)[s.len() as int])@ == n);
    }
}

/// Inserts a string into a strictly sorted list, keeping it strictly
/// sorted; a string already present is not added again.
pub fn insert_name_sorted(v: &mut Vec<String>, name: String)
    requires
        names_sorted(old(v)@),
    ensures
        names_sorted(final(v)@),
        forall|n: Seq<char>|
            has_name(final(v)@, n) <==> (has_name(old(v)@, n) || n == name@),
{
    let mut idx: usize = 0;
    while idx < v.len()
        invariant
            v@ == old(v)@,
            names_sorted(old(v)@),
            0 <= idx <= old(v)@.len(),
            forall|k: int| 0 <= k < idx ==> lex_lt((#[trigger] old(v)@[k])@, name@),
        decreases old(v)@.len() - idx,
    {
        let cur_eq = str_eq(v[idx].as_str(), name.as_str());
        if cur_eq {
            proof {
                assert forall|n: Seq<char>| has_name(v@, n) <==> (has_name(old(v)@, n) || n
                    == name@) by {
                    if n == name@ {
                        assert((old(v)@[idx as int])@ == n);
                    }
                }
            }
            return;
        }
        let cur_lt = str_lt(v[idx].as_str(), name.as_str());
        if cur_lt {
            idx = idx + 1;
        } else {
            proof {
                lemma_lex_trichotomy((old(v)@[idx as int])@, name@);
            }
            v.insert(idx, name);
            proof {
                old(v)@.insert_ensures(idx as int, name);
                assert forall|i: int, j: int| 0 <= i < j < v@.len() implies lex_lt(
                    (v@[i])@,
                    (v@[j])@,
                ) by {
                    if j < idx {
                    } else if j == idx {
                        assert(v@[i] == old(v)@[i]);
                    } else {
                        if i < idx {
                            assert(v@[i] == old(v)@[i] && v@[j] == old(v)@[j - 1]);
                        } else if i == idx {
                            assert(v@[j] == old(v)@[j - 1]);
                            if j - 1 > idx {
                                lemma_lex_lt_trans(name@, (old(v)@[idx as int])@, (old(v)@[j - 1])@);
                            }
                        } else {
                            assert(v@[i] == old(v)@[i - 1] && v@[j] == old(v)@[j - 1]);
                        }
                    }
                }
                assert forall|n: Seq<char>| has_name(v@, n) <==> (has_name(old(v)@, n) || n
                    == name@) by {
                    if has_name(v@, n) {
                        let i = choose|i: int| 0 <= i < v@.len() && (#[trigger] v@[i])@ == n;
                        if i < idx {
                            assert((old(v)@[i])@ == n);
                        } else if i > idx {
                            assert((old(v)@[i - 1])@ == n);
                        }
                    }
                    if has_name(old(v)@, n) {
                        let i = choose|i: int| 0 <= i < old(v)@.len() && (#[trigger] old(v)@[i])@ == n;
                        if i < idx {
                            assert((v@[i])@ == n);
                        } else {
                            assert((v@[i + 1])@ == n);
                        }
                    }
                    if n == name@ {
                        assert((v@[idx as int])@ == n);
                    }
                }
            }
            return;
        }
    }
    let ghost before = v@;
    v.push(name);
    proof {
        assert forall|i: int, j: int| 0 <= i < j < v@.len() implies lex_lt((v@[i])@, (v@[j])@) by {
            if j < before.len() {
                assert(v@[i] == before[i] && v@[j] == before[j]);
            } else {
                assert(v@[i] == before[i] && v@[j] == name);
            }
        }
        assert forall|n: Seq<char>| has_name(v@, n) <==> (has_name(old(v)@, n) || n == name@) by {
            lemma_has_name_push(before, name, n);
        }
    }
}

/// Collects the given strings into a strictly ascending list: a text
/// appears in the result exactly when some given string reads as it.
pub fn sorted_distinct_names(names: Vec<String>) -> (r: Vec<String>)
    ensures
        names_sorted(r@),
        forall|n: Seq<char>| has_name(r@, n) <==> has_name(names@, n),
{
    let mut out: Vec<String> = Vec::new();
    let mut i: usize = 0;
    while i < names.len()
        invariant
            names_sorted(out@),
            0 <= i <= names@.len(),
            forall|n: Seq<char>| has_name(out@, n) <==> has_name(names@.take(i as int), n),
        decreases names@.len() - i,
    {
        let ghost old_out = out@;
        insert_name_sorted(&mut out, names[i].clone());
        proof {
            assert(names@.take(i as int + 1) =~= names@.take(i as int).push(names@[i as int]));
            assert forall|n: Seq<char>| has_name(out@, n) <==> has_name(
                names@.take(i as int + 1),
                n,
            ) by {
                lemma_has_name_push(names@.take(i as int), names@[i as int], n);
            }
        }
        i = i + 1;
    }
    proof {
        assert(names@.take(names@.len() as int) =~= names@);
    }
    out
}

} // verus!
