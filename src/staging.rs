//! The renaming policy of the staging copy.
//!
//! A file with a title tag is renamed to `<title>.mp3`. A pass handles the
//! files in listing order and makes a rename only when no file of the folder
//! bears the new name at that moment, so no file is ever overwritten. Passes
//! are repeated until one changes nothing: a name that frees up later is
//! still taken, and staging the result again leaves it as it is.
use vstd::prelude::*;
use vstd::set_lib::{lemma_int_range, lemma_len_subset, set_int_range};

verus! {

/// The name a file with the given title is renamed to.
pub open spec fn title_file_name(title: Seq<char>) -> Seq<char> {
    title + ".mp3"@
}

/// The views of a sequence of strings.
pub open spec fn string_views(s: Seq<String>) -> Seq<Seq<char>> {
    s.map_values(|x: String| x@)
}

/// The names of the folder after file `i`, with the given title, is handled.
pub open spec fn rename_one(names: Seq<Seq<char>>, i: int, title: Option<String>) -> Seq<Seq<char>> {
    match title {
        Some(t) => if names.contains(title_file_name(t@)) {
            names
        } else {
            names.update(i, title_file_name(t@))
        },
        None => names,
    }
}

/// The names of the folder after the first `n` files are handled.
pub open spec fn renamed_prefix(names: Seq<Seq<char>>, titles: Seq<Option<String>>, n: nat) -> Seq<
    Seq<char>,
>
    decreases n,
{
    if n == 0 {
        names
    } else {
        rename_one(renamed_prefix(names, titles, (n - 1) as nat), n - 1, titles[n - 1])
    }
}

/// No two names are equal.
pub open spec fn names_distinct(names: Seq<Seq<char>>) -> bool {
    forall|i: int, j: int|
        0 <= i < names.len() && 0 <= j < names.len() && i != j ==> #[trigger] names[i]
            != #[trigger] names[j]
}

fn contains_name(names: &Vec<String>, s: &String) -> (r: bool)
    ensures
        r == string_views(names@).contains(s@),
{
    let mut k: usize = 0;
    while k < names.len()
        invariant
            k <= names.len(),
            forall|m: int| 0 <= m < k ==> names@[m]@ != s@,
        decreases names.len() - k,
    {
        if names[k] == *s {
            assert(string_views(names@)[k as int] == s@);
            return true;
        }
        k = k + 1;
    }
    proof {
        if string_views(names@).contains(s@) {
            let m = choose|m: int| 0 <= m < names@.len() && string_views(names@)[m] == s@;
            assert(names@[m]@ == s@);
        }
    }
    false
}

/// One pass over the folder: every file handled once, in listing order.
pub open spec fn staging_pass(names: Seq<Seq<char>>, titles: Seq<Option<String>>) -> Seq<Seq<char>> {
    renamed_prefix(names, titles, names.len() as nat)
}

/// The names after `k` passes.
pub open spec fn passes(names: Seq<Seq<char>>, titles: Seq<Option<String>>, k: nat) -> Seq<Seq<char>>
    decreases k,
{
    if k == 0 {
        names
    } else {
        staging_pass(passes(names, titles, (k - 1) as nat), titles)
    }
}

/// The names after staging: as many passes as there are files, by which
/// point a pass changes nothing.
pub open spec fn staged(names: Seq<Seq<char>>, titles: Seq<Option<String>>) -> Seq<Seq<char>> {
    passes(names, titles, names.len() as nat)
}

/// File `i` bears the name its title gives it.
pub open spec fn is_settled(names: Seq<Seq<char>>, titles: Seq<Option<String>>, i: int) -> bool {
    &&& titles[i] is Some
    &&& names[i] == title_file_name(titles[i]->0@)
}

/// The files that bear the name their title gives them.
pub open spec fn settled(names: Seq<Seq<char>>, titles: Seq<Option<String>>) -> Set<int> {
    Set::new(|i: int| 0 <= i < names.len() && is_settled(names, titles, i))
}

fn copy_names(names: &Vec<String>) -> (r: Vec<String>)
    ensures
        string_views(r@) == string_views(names@),
{
    let mut current: Vec<String> = Vec::new();
    let mut k: usize = 0;
    while k < names.len()
        invariant
            k <= names.len(),
            string_views(current@) == string_views(names@.subrange(0, k as int)),
        decreases names.len() - k,
    {
        let ghost old_cur = current@;
        let c = names[k].clone();
        assert(c@ == names@[k as int]@);
        current.push(c);
        assert(current@ == old_cur.push(c));
        assert(string_views(current@) =~= string_views(names@.subrange(0, k + 1))) by {
            assert(string_views(old_cur).len() == k);
            assert forall|m: int| 0 <= m < k implies string_views(current@)[m] == string_views(
                names@.subrange(0, k + 1),
            )[m] by {
                assert(string_views(old_cur)[m] == string_views(names@.subrange(0, k as int))[m]);
            }
        }
        k = k + 1;
    }
    assert(names@.subrange(0, names.len() as int) =~= names@);
    current
}

fn names_equal(a: &Vec<String>, b: &Vec<String>) -> (r: bool)
    ensures
        r == (string_views(a@) == string_views(b@)),
{
    if a.len() != b.len() {
        assert(string_views(a@).len() != string_views(b@).len());
        return false;
    }
    let mut k: usize = 0;
    while k < a.len()
        invariant
            k <= a@.len(),
            a@.len() == b@.len(),
            forall|m: int| 0 <= m < k ==> a@[m]@ == b@[m]@,
        decreases a.len() - k,
    {
        if a[k] != b[k] {
            assert(string_views(a@)[k as int] != string_views(b@)[k as int]);
            return false;
        }
        k = k + 1;
    }
    assert(string_views(a@) =~= string_views(b@));
    true
}

fn run_pass(names: &Vec<String>, titles: &Vec<Option<String>>) -> (r: Vec<String>)
    requires
        names@.len() == titles@.len(),
    ensures
        string_views(r@) == staging_pass(string_views(names@), titles@),
        r@.len() == names@.len(),
{
    let mut current = copy_names(names);
    let mut i: usize = 0;
    while i < titles.len()
        invariant
            i <= titles.len(),
            names@.len() == titles@.len(),
            string_views(current@) == renamed_prefix(string_views(names@), titles@, i as nat),
        decreases titles.len() - i,
    {
        let ghost before = string_views(current@);
        assert(current@.len() == names@.len()) by {
            lemma_renamed_prefix_len(string_views(names@), titles@, i as nat);
        }
        match &titles[i] {
            Some(t) => {
                let mut candidate = t.clone();
                candidate.append(".mp3");
                if !contains_name(&current, &candidate) {
                    current.set(i, candidate);
                    assert(string_views(current@) =~= before.update(i as int, title_file_name(t@)));
                }
            },
            None => {},
        }
        i = i + 1;
    }
    proof {
        lemma_renamed_prefix_len(string_views(names@), titles@, titles@.len() as nat);
    }
    current
}

/// The names the files of one folder have after staging, given their
/// current names and their title tags, in listing order.
pub fn staged_names(names: &Vec<String>, titles: &Vec<Option<String>>) -> (r: Vec<String>)
    requires
        names@.len() == titles@.len(),
    ensures
        string_views(r@) == staged(string_views(names@), titles@),
        staging_pass(string_views(r@), titles@) == string_views(r@),
{
    let ghost start = string_views(names@);
    let ghost n = start.len();
    let mut current = copy_names(names);
    let mut next = run_pass(&current, titles);
    let ghost mut j: nat = 0;
    proof {
        lemma_pass_settles(start, titles@);
        lemma_settled_bound(start, titles@);
    }
    while !names_equal(&next, &current)
        invariant
            current@.len() == n,
            n == titles@.len(),
            string_views(current@) == passes(start, titles@, j),
            string_views(next@) == staging_pass(string_views(current@), titles@),
            next@.len() == n,
            settled(string_views(current@), titles@).finite(),
            settled(string_views(current@), titles@).len() <= n,
        decreases n - settled(string_views(current@), titles@).len(),
    {
        proof {
            lemma_pass_settles(string_views(current@), titles@);
            lemma_settled_bound(string_views(next@), titles@);
        }
        current = next;
        next = run_pass(&current, titles);
        proof {
            j = j + 1;
        }
    }
    proof {
        lemma_passes_reach_fixpoint(start, titles@);
        if j <= n {
            lemma_fixpoint_stays(start, titles@, j, n as nat);
        } else {
            lemma_fixpoint_stays(start, titles@, n as nat, j);
        }
    }
    current
}

proof fn lemma_prefix_frame(names: Seq<Seq<char>>, titles: Seq<Option<String>>, k: nat)
    requires
        k <= names.len(),
        names.len() == titles.len(),
    ensures
        renamed_prefix(names, titles, k).len() == names.len(),
        forall|i: int| k <= i < names.len() ==> #[trigger] renamed_prefix(names, titles, k)[i] == names[i],
        forall|i: int|
            0 <= i < k ==> #[trigger] renamed_prefix(names, titles, k)[i] == renamed_prefix(
                names,
                titles,
                (i + 1) as nat,
            )[i],
    decreases k,
{
    if k > 0 {
        lemma_prefix_frame(names, titles, (k - 1) as nat);
    }
}

/// One pass leaves a file either as it was or named by its title, and a file
/// that already bears its title's name keeps it.
proof fn lemma_pass_entry(names: Seq<Seq<char>>, titles: Seq<Option<String>>, i: int)
    requires
        0 <= i < names.len(),
        names.len() == titles.len(),
    ensures
        staging_pass(names, titles).len() == names.len(),
        staging_pass(names, titles)[i] == names[i] || (titles[i] is Some && staging_pass(
            names,
            titles,
        )[i] == title_file_name(titles[i]->0@)),
        is_settled(names, titles, i) ==> staging_pass(names, titles)[i] == names[i],
{
    lemma_prefix_frame(names, titles, names.len() as nat);
    lemma_prefix_frame(names, titles, i as nat);
    let before = renamed_prefix(names, titles, i as nat);
    assert(before[i] == names[i]);
    if is_settled(names, titles, i) {
        assert(before.contains(title_file_name(titles[i]->0@)));
    }
}

proof fn lemma_settled_bound(names: Seq<Seq<char>>, titles: Seq<Option<String>>)
    ensures
        settled(names, titles).finite(),
        settled(names, titles).len() <= names.len(),
{
    lemma_int_range(0, names.len() as int);
    lemma_len_subset(settled(names, titles), set_int_range(0, names.len() as int));
}

/// A pass keeps every settled file settled, and a pass that changes anything
/// settles one more file.
proof fn lemma_pass_settles(names: Seq<Seq<char>>, titles: Seq<Option<String>>)
    requires
        names.len() == titles.len(),
    ensures
        staging_pass(names, titles).len() == names.len(),
        settled(names, titles).subset_of(settled(staging_pass(names, titles), titles)),
        staging_pass(names, titles) != names ==> settled(names, titles).len() < settled(
            staging_pass(names, titles),
            titles,
        ).len(),
{
    let q = staging_pass(names, titles);
    lemma_prefix_frame(names, titles, names.len() as nat);
    assert forall|i: int| settled(names, titles).contains(i) implies settled(q, titles).contains(i) by {
        lemma_pass_entry(names, titles, i);
    }
    if q != names {
        assert(!(q =~= names));
        let j = choose|j: int| 0 <= j < names.len() && q[j] != names[j];
        lemma_pass_entry(names, titles, j);
        let s1 = settled(names, titles);
        let s2 = settled(q, titles);
        assert(s2.contains(j) && !s1.contains(j));
        lemma_settled_bound(q, titles);
        assert(s1.subset_of(s2.remove(j)));
        lemma_len_subset(s1, s2.remove(j));
    }
}

proof fn lemma_passes_len(names: Seq<Seq<char>>, titles: Seq<Option<String>>, k: nat)
    requires
        names.len() == titles.len(),
    ensures
        passes(names, titles, k).len() == names.len(),
    decreases k,
{
    if k > 0 {
        lemma_passes_len(names, titles, (k - 1) as nat);
        lemma_pass_settles(passes(names, titles, (k - 1) as nat), titles);
    }
}

proof fn lemma_fixpoint_stays(names: Seq<Seq<char>>, titles: Seq<Option<String>>, j: nat, m: nat)
    requires
        staging_pass(passes(names, titles, j), titles) == passes(names, titles, j),
        j <= m,
    ensures
        passes(names, titles, m) == passes(names, titles, j),
    decreases m,
{
    if m > j {
        lemma_fixpoint_stays(names, titles, j, (m - 1) as nat);
    }
}

proof fn lemma_unsettled_count(names: Seq<Seq<char>>, titles: Seq<Option<String>>, k: nat)
    requires
        names.len() == titles.len(),
    ensures
        staging_pass(passes(names, titles, k), titles) != passes(names, titles, k) ==> settled(
            passes(names, titles, k),
            titles,
        ).len() >= k,
    decreases k,
{
    if k > 0 {
        let prev = passes(names, titles, (k - 1) as nat);
        let cur = passes(names, titles, k);
        lemma_unsettled_count(names, titles, (k - 1) as nat);
        lemma_passes_len(names, titles, (k - 1) as nat);
        if staging_pass(cur, titles) != cur {
            if staging_pass(prev, titles) == prev {
                assert(cur == prev);
            }
            lemma_pass_settles(prev, titles);
        }
    }
}

/// After as many passes as there are files, a pass changes nothing.
proof fn lemma_passes_reach_fixpoint(names: Seq<Seq<char>>, titles: Seq<Option<String>>)
    requires
        names.len() == titles.len(),
    ensures
        staging_pass(staged(names, titles), titles) == staged(names, titles),
{
    let n = names.len() as nat;
    let r = passes(names, titles, n);
    lemma_unsettled_count(names, titles, n);
    lemma_passes_len(names, titles, n);
    if staging_pass(r, titles) != r {
        lemma_pass_settles(r, titles);
        lemma_settled_bound(staging_pass(r, titles), titles);
    }
}

proof fn lemma_passes_of_fixpoint(r: Seq<Seq<char>>, titles: Seq<Option<String>>, m: nat)
    requires
        staging_pass(r, titles) == r,
    ensures
        passes(r, titles, m) == r,
    decreases m,
{
    if m > 0 {
        lemma_passes_of_fixpoint(r, titles, (m - 1) as nat);
    }
}

/// Staging names that were already staged changes none of them.
pub proof fn lemma_staging_idempotent(names: Seq<Seq<char>>, titles: Seq<Option<String>>)
    requires
        names.len() == titles.len(),
    ensures
        staged(staged(names, titles), titles) == staged(names, titles),
{
    let r = staged(names, titles);
    lemma_passes_reach_fixpoint(names, titles);
    lemma_passes_of_fixpoint(r, titles, r.len() as nat);
}

proof fn lemma_renamed_prefix_len(names: Seq<Seq<char>>, titles: Seq<Option<String>>, n: nat)
    requires
        n <= titles.len(),
        n <= names.len(),
    ensures
        renamed_prefix(names, titles, n).len() == names.len(),
    decreases n,
{
    if n > 0 {
        lemma_renamed_prefix_len(names, titles, (n - 1) as nat);
    }
}

proof fn lemma_prefix_distinct(
    names: Seq<Seq<char>>,
    titles: Seq<Option<String>>,
    n: nat,
)
    requires
        names_distinct(names),
        n <= titles.len(),
        n <= names.len(),
    ensures
        names_distinct(renamed_prefix(names, titles, n)),
    decreases n,
{
    if n > 0 {
        lemma_prefix_distinct(names, titles, (n - 1) as nat);
        lemma_renamed_prefix_len(names, titles, (n - 1) as nat);
        let prev = renamed_prefix(names, titles, (n - 1) as nat);
        match titles[n - 1] {
            Some(t) => {
                if !prev.contains(title_file_name(t@)) {
                    let next = prev.update(n - 1, title_file_name(t@));
                    assert forall|i: int, j: int|
                        0 <= i < next.len() && 0 <= j < next.len() && i != j implies #[trigger] next[i]
                        != #[trigger] next[j] by {
                        if i == n - 1 {
                            assert(prev[j] == next[j]);
                        } else if j == n - 1 {
                            assert(prev[i] == next[i]);
                        } else {
                            assert(prev[i] != prev[j]);
                        }
                    }
                }
            },
            None => {},
        }
    }
}

proof fn lemma_passes_distinct(names: Seq<Seq<char>>, titles: Seq<Option<String>>, k: nat)
    requires
        names_distinct(names),
        names.len() == titles.len(),
    ensures
        names_distinct(passes(names, titles, k)),
    decreases k,
{
    if k > 0 {
        let prev = passes(names, titles, (k - 1) as nat);
        lemma_passes_distinct(names, titles, (k - 1) as nat);
        lemma_passes_len(names, titles, (k - 1) as nat);
        lemma_prefix_distinct(prev, titles, prev.len() as nat);
    }
}

/// Staging never makes two files of a folder share a name: names that are
/// distinct before stay distinct after.
pub proof fn lemma_staged_names_distinct(names: Seq<Seq<char>>, titles: Seq<Option<String>>)
    requires
        names_distinct(names),
        names.len() == titles.len(),
    ensures
        names_distinct(staged(names, titles)),
{
    lemma_passes_distinct(names, titles, names.len() as nat);
}

} // verus!
