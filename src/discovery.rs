//! Ordering the discovered migration files.
use vstd::prelude::*;
use crate::naming::{logical_name, logical_name_of};
use crate::order::{
    lemma_lex_irreflexive, lemma_lex_total, lemma_lex_transitive, lex_lt,
    name_precedes,
};

verus! {

/// A migration file and its logical name.
pub struct MigrationSource {
    pub path: String,
    pub name: String,
}

/// Why a set of discovered files cannot be ordered into migrations.
#[derive(Debug)]
pub enum DiscoveryError {
    /// The file's logical name is empty.
    Unnamed { path: String },
    /// Two files share this logical name.
    DuplicateName { name: String },
}

impl MigrationSource {
    /// `self` is the file at `p`, named after it.
    pub open spec fn comes_from(&self, p: Seq<char>) -> bool {
        self.path@ == p && self.name@ == logical_name_of(p)
    }
}

/// Every path of `paths` has a non-empty logical name.
pub open spec fn all_named(paths: Seq<String>) -> bool {
    forall|i: int| 0 <= i < paths.len() ==> logical_name_of(#[trigger] paths[i]@).len() > 0
}

/// No two paths of `paths` share a logical name.
pub open spec fn names_distinct(paths: Seq<String>) -> bool {
    forall|i: int, j: int|
        0 <= i < paths.len() && 0 <= j < paths.len() && i != j ==> logical_name_of(
            #[trigger] paths[i]@,
        ) != logical_name_of(#[trigger] paths[j]@)
}

/// The sources are in strictly increasing order of name.
pub open spec fn strictly_sorted(s: Seq<MigrationSource>) -> bool {
    forall|a: int, b: int| 0 <= a < b < s.len() ==> lex_lt(#[trigger] s[a].name@, #[trigger] s[b].name@)
}

/// Each source of `s` comes from one of the first `i` paths.
pub open spec fn each_from(s: Seq<MigrationSource>, paths: Seq<String>, i: int) -> bool {
    forall|e: int| 0 <= e < s.len() ==> exists|j: int| 0 <= j < i && (#[trigger] s[e]).comes_from(paths[j]@)
}

/// Each of the first `i` paths has a source in `s`.
pub open spec fn each_listed(s: Seq<MigrationSource>, paths: Seq<String>, i: int) -> bool {
    forall|j: int| 0 <= j < i ==> exists|e: int| 0 <= e < s.len() && s[e].comes_from(#[trigger] paths[j]@)
}

/// `s` holds exactly the files of `paths`, each once.
pub open spec fn lists_exactly(s: Seq<MigrationSource>, paths: Seq<String>) -> bool {
    &&& s.len() == paths.len()
    &&& each_from(s, paths, paths.len() as int)
    &&& each_listed(s, paths, paths.len() as int)
}

proof fn lemma_insert_keeps_sorted(s: Seq<MigrationSource>, k: int, x: MigrationSource)
    requires
        0 <= k <= s.len(),
        strictly_sorted(s),
        forall|a: int| 0 <= a < k ==> lex_lt((#[trigger] s[a]).name@, x.name@),
        k < s.len() ==> lex_lt(x.name@, s[k].name@),
    ensures
        strictly_sorted(s.insert(k, x)),
{
    let t = s.insert(k, x);
    assert forall|a: int, b: int| 0 <= a < b < t.len() implies lex_lt(#[trigger] t[a].name@, #[trigger] t[b].name@) by {
        if b == k {
        } else if a == k {
            if b > k + 1 {
                lemma_lex_transitive(x.name@, s[k].name@, s[b - 1].name@);
            }
        } else if a < k && b > k {
            if b - 1 > k {
                lemma_lex_transitive(x.name@, s[k].name@, s[b - 1].name@);
            }
            lemma_lex_transitive(s[a].name@, x.name@, s[b - 1].name@);
        } else if b < k {
        } else {
            assert(lex_lt(s[a - 1].name@, s[b - 1].name@));
        }
    }
}

proof fn lemma_extend_distinct(paths: Seq<String>, i: int, out: Seq<MigrationSource>)
    requires
        0 <= i < paths.len(),
        names_distinct(paths.subrange(0, i)),
        each_listed(out, paths, i),
        forall|e: int| 0 <= e < out.len() ==> (#[trigger] out[e]).name@ != logical_name_of(paths[i]@),
    ensures
        names_distinct(paths.subrange(0, i + 1)),
{
    let pre = paths.subrange(0, i);
    let post = paths.subrange(0, i + 1);
    assert forall|x: int, y: int| 0 <= x < post.len() && 0 <= y < post.len() && x != y implies logical_name_of(
        #[trigger] post[x]@,
    ) != logical_name_of(#[trigger] post[y]@) by {
        if x == i {
            let e = choose|e: int| 0 <= e < out.len() && out[e].comes_from((paths[y])@);
            assert(out[e].name@ != logical_name_of(paths[i]@));
        } else if y == i {
            let e = choose|e: int| 0 <= e < out.len() && out[e].comes_from((paths[x])@);
            assert(out[e].name@ != logical_name_of(paths[i]@));
        } else {
            assert(pre[x] == post[x] && pre[y] == post[y]);
        }
    }
}

/// Inserts `src` at its place by name and returns that place, or returns
/// `None` and leaves `out` as it was when a source of that name is there.
fn insert_by_name(out: &mut Vec<MigrationSource>, src: MigrationSource) -> (r: Option<usize>)
    requires
        strictly_sorted(old(out)@),
    ensures
        match r {
            Some(k) => k <= old(out)@.len() && final(out)@ == old(out)@.insert(k as int, src)
                && strictly_sorted(final(out)@)
                && forall|e: int| 0 <= e < old(out)@.len() ==> (#[trigger] old(out)@[e]).name@ != src.name@,
            None => final(out)@ == old(out)@
                && exists|e: int| 0 <= e < old(out)@.len() && (#[trigger] old(out)@[e]).name@ == src.name@,
        },
{
    let mut k: usize = 0;
    while k < out.len() && name_precedes(out[k].name.as_str(), src.name.as_str())
        invariant
            k <= out@.len(),
            forall|a: int| 0 <= a < k ==> lex_lt((#[trigger] out@[a]).name@, src.name@),
        decreases out@.len() - k,
    {
        k = k + 1;
    }
    if k < out.len() && out[k].name == src.name {
        assert(out@[k as int].name@ == src.name@);
        return None;
    }
    proof {
        assert forall|e: int| 0 <= e < out@.len() implies (#[trigger] out@[e]).name@ != src.name@ by {
            if out@[e].name@ == src.name@ {
                lemma_lex_irreflexive(src.name@);
                if e > k {
                    assert(lex_lt(out@[k as int].name@, out@[e].name@));
                }
            }
        }
        if k < out@.len() {
            lemma_lex_total(out@[k as int].name@, src.name@);
        }
        lemma_insert_keeps_sorted(out@, k as int, src);
    }
    out.insert(k, src);
    Some(k)
}

proof fn lemma_cover_after_insert(
    s: Seq<MigrationSource>,
    k: int,
    x: MigrationSource,
    paths: Seq<String>,
    i: int,
)
    requires
        0 <= k <= s.len(),
        0 <= i < paths.len(),
        x.comes_from(paths[i]@),
        each_from(s, paths, i),
        each_listed(s, paths, i),
    ensures
        each_from(s.insert(k, x), paths, i + 1),
        each_listed(s.insert(k, x), paths, i + 1),
{
    let t = s.insert(k, x);
    assert forall|e: int| 0 <= e < t.len() implies exists|j: int| 0 <= j < i + 1 && (#[trigger] t[e]).comes_from(paths[j]@) by {
        if e < k {
            assert(t[e] == s[e]);
        } else if e == k {
            assert(t[e].comes_from(paths[i]@));
        } else {
            assert(t[e] == s[e - 1]);
        }
    }
    assert forall|j: int| 0 <= j < i + 1 implies exists|e: int| 0 <= e < t.len() && t[e].comes_from((#[trigger] paths[j])@) by {
        if j == i {
            assert(t[k].comes_from(paths[j]@));
        } else {
            let e = choose|e: int| 0 <= e < s.len() && s[e].comes_from(paths[j]@);
            if e < k {
                assert(t[e] == s[e]);
            } else {
                assert(t[e + 1] == s[e]);
            }
        }
    }
}

/// Orders the discovered files by logical name, the order in which they are
/// rendered, dispatched and applied. Fails on a file without a logical name,
/// and then on two files that share one.
pub fn discover(paths: &Vec<String>) -> (r: Result<Vec<MigrationSource>, DiscoveryError>)
    ensures
        match r {
            Ok(v) => all_named(paths@) && names_distinct(paths@) && strictly_sorted(v@)
                && lists_exactly(v@, paths@),
            Err(DiscoveryError::Unnamed { path }) => !all_named(paths@) && exists|i: int|
                0 <= i < paths@.len() && #[trigger] paths@[i]@ == path@ && logical_name_of(path@).len() == 0,
            Err(DiscoveryError::DuplicateName { name }) => all_named(paths@) && !names_distinct(paths@)
                && exists|i: int, j: int|
                0 <= i < paths@.len() && 0 <= j < paths@.len() && i != j && logical_name_of(
                    #[trigger] paths@[i]@,
                ) == name@ && logical_name_of(#[trigger] paths@[j]@) == name@,
        },
{
    let n = paths.len();
    let mut names: Vec<String> = Vec::new();
    let mut i: usize = 0;
    while i < n
        invariant
            n == paths@.len(),
            i <= n,
            names@.len() == i,
            forall|k: int| 0 <= k < i ==> (#[trigger] names@[k])@ == logical_name_of(paths@[k]@)
                && names@[k]@.len() > 0,
        decreases n - i,
    {
        match logical_name(paths[i].as_str()) {
            Some(name) => names.push(name),
            None => {
                return Err(DiscoveryError::Unnamed { path: paths[i].clone() });
            },
        }
        i = i + 1;
    }
    assert(all_named(paths@)) by {
        assert forall|k: int| 0 <= k < paths@.len() implies logical_name_of(#[trigger] paths@[k]@).len() > 0 by {
            assert(names@[k]@ == logical_name_of(paths@[k]@));
        }
    }
    let mut out: Vec<MigrationSource> = Vec::new();
    i = 0;
    while i < n
        invariant
            n == paths@.len(),
            names@.len() == n,
            forall|k: int| 0 <= k < n ==> (#[trigger] names@[k])@ == logical_name_of(paths@[k]@),
            all_named(paths@),
            i <= n,
            out@.len() == i,
            strictly_sorted(out@),
            each_from(out@, paths@, i as int),
            each_listed(out@, paths@, i as int),
            names_distinct(paths@.subrange(0, i as int)),
        decreases n - i,
    {
        let name = &names[i];
        let src = MigrationSource { path: paths[i].clone(), name: name.clone() };
        let ghost old_out = out@;
        let k = match insert_by_name(&mut out, src) {
            Some(k) => k,
            None => {
                let ghost e = choose|e: int| 0 <= e < old_out.len() && old_out[e].name@ == name@;
                let ghost j = choose|j: int| 0 <= j < i && old_out[e].comes_from(paths@[j]@);
                assert(logical_name_of(paths@[j]@) == name@);
                assert(logical_name_of(paths@[i as int]@) == name@);
                return Err(DiscoveryError::DuplicateName { name: name.clone() });
            },
        };
        proof {
            lemma_cover_after_insert(old_out, k as int, src, paths@, i as int);
            lemma_extend_distinct(paths@, i as int, old_out);
        }
        i = i + 1;
    }
    assert(paths@.subrange(0, n as int) =~= paths@);
    Ok(out)
}

} // verus!
