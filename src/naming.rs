//! Logical names of migration files.
use vstd::prelude::*;

verus! {

/// Index of the last occurrence of `c` in `s`, or -1 when it does not occur.
pub open spec fn last_index(s: Seq<char>, c: char) -> int
    decreases s.len(),
{
    if s.len() == 0 {
        -1
    } else if s.last() == c {
        s.len() - 1
    } else {
        last_index(s.drop_last(), c)
    }
}

pub proof fn lemma_last_index_bounds(s: Seq<char>, c: char)
    ensures
        -1 <= last_index(s, c) < s.len(),
        last_index(s, c) >= 0 ==> s[last_index(s, c)] == c,
    decreases s.len(),
{
    if s.len() > 0 && s.last() != c {
        lemma_last_index_bounds(s.drop_last(), c);
    }
}

/// The file name of a path: what follows its last `/`.
pub open spec fn base_name(p: Seq<char>) -> Seq<char> {
    p.subrange(last_index(p, '/') + 1, p.len() as int)
}

/// A file name without its last extension. A leading dot starts no extension.
pub open spec fn strip_extension(s: Seq<char>) -> Seq<char> {
    if last_index(s, '.') > 0 {
        s.subrange(0, last_index(s, '.'))
    } else {
        s
    }
}

/// Whether `s` is longer than `.sql` and ends with it.
pub open spec fn has_sql_suffix(s: Seq<char>) -> bool {
    let n = s.len() as int;
    n > 4 && s[n - 4] == '.' && s[n - 3] == 's' && s[n - 2] == 'q' && s[n - 1] == 'l'
}

/// The logical name of a migration file: its file name without the template
/// extension and without the `.sql` extension that precedes it, if any
/// (`dir/001_init.sql.j2` and `dir/001_init.sql` both give `001_init`).
pub open spec fn logical_name_of(p: Seq<char>) -> Seq<char> {
    let stem = strip_extension(base_name(p));
    if has_sql_suffix(stem) {
        stem.subrange(0, stem.len() - 4)
    } else {
        stem
    }
}

/// Position of the last `c` in `s`.
pub fn find_last(s: &str, c: char) -> (r: Option<usize>)
    ensures
        match r {
            Some(i) => i as int == last_index(s@, c),
            None => last_index(s@, c) == -1,
        },
{
    let n = s.unicode_len();
    let mut i: usize = n;
    assert(s@.subrange(0, n as int) =~= s@);
    while i > 0
        invariant
            i <= n,
            n == s@.len(),
            last_index(s@.subrange(0, i as int), c) == last_index(s@, c),
        decreases i,
    {
        let d = s.get_char(i - 1);
        if d == c {
            return Some(i - 1);
        }
        assert(s@.subrange(0, i as int).drop_last() =~= s@.subrange(0, i - 1));
        i = i - 1;
    }
    None
}

/// The logical name of the file at `path`; `None` when that name is empty.
pub fn logical_name(path: &str) -> (r: Option<String>)
    ensures
        match r {
            Some(name) => name@ == logical_name_of(path@) && name@.len() > 0,
            None => logical_name_of(path@).len() == 0,
        },
{
    proof {
        lemma_last_index_bounds(path@, '/');
    }
    let n = path.unicode_len();
    let start: usize = match find_last(path, '/') {
        Some(i) => i + 1,
        None => 0,
    };
    let base = path.substring_char(start, n);
    assert(base@ == base_name(path@));
    proof {
        lemma_last_index_bounds(base@, '.');
    }
    let bn = base.unicode_len();
    let stem_end: usize = match find_last(base, '.') {
        Some(i) => if i > 0 { i } else { bn },
        None => bn,
    };
    let stem = base.substring_char(0, stem_end);
    assert(stem@ == strip_extension(base@));
    let sn = stem.unicode_len();
    let end: usize = if sn > 4 && stem.get_char(sn - 4) == '.' && stem.get_char(sn - 3) == 's'
        && stem.get_char(sn - 2) == 'q' && stem.get_char(sn - 1) == 'l' {
        sn - 4
    } else {
        sn
    };
    let name = stem.substring_char(0, end);
    assert(name@ =~= logical_name_of(path@));
    if end == 0 {
        None
    } else {
        Some(name.to_string())
    }
}

} // verus!
