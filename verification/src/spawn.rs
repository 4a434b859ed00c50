//! What a sprite dropped from the asset browser is called.

use vstd::prelude::*;
use vstd::string::*;

verus! {

/// The position of the last `c` in `s`, or `-1` when there is none.
pub open spec fn last_index_of(s: Seq<char>, c: char) -> int
    decreases s.len(),
{
    if s.len() == 0 {
        -1
    } else if s.last() == c {
        s.len() - 1
    } else {
        last_index_of(s.drop_last(), c)
    }
}

/// The last component of a `/`-separated path.
pub open spec fn file_name(path: Seq<char>) -> Seq<char> {
    path.subrange(last_index_of(path, '/') + 1, path.len() as int)
}

/// What to call an entity showing the asset at `path`: its file name
/// without the extension, or the whole file name when removing the extension
/// would leave nothing.
pub open spec fn name_of_spec(path: Seq<char>) -> Seq<char> {
    let file = file_name(path);
    let dot = last_index_of(file, '.');
    if dot > 0 {
        file.subrange(0, dot)
    } else {
        file
    }
}

/// `last_index_of` names a position of `s`, or none.
pub proof fn lemma_last_index_in_range(s: Seq<char>, c: char)
    ensures
        -1 <= last_index_of(s, c) < s.len(),
        last_index_of(s, c) >= 0 ==> s[last_index_of(s, c)] == c,
        forall|i: int| last_index_of(s, c) < i < s.len() ==> s[i] != c,
    decreases s.len(),
{
    if s.len() > 0 && s.last() != c {
        lemma_last_index_in_range(s.drop_last(), c);
        assert forall|i: int| last_index_of(s, c) < i < s.len() implies s[i] != c by {
            if i < s.len() - 1 {
                assert(s.drop_last()[i] == s[i]);
            }
        }
    }
}

/// The position of the last `c` in `s`.
pub(crate) fn find_last(s: &str, c: char) -> (found: Option<usize>)
    ensures
        match found {
            Some(i) => i as int == last_index_of(s@, c),
            None => last_index_of(s@, c) == -1,
        },
{
    let n = s.unicode_len();
    let mut found: Option<usize> = None;
    let mut i: usize = 0;
    proof {
        assert(s@.take(0) =~= Seq::<char>::empty());
    }
    while i < n
        invariant
            n == s@.len(),
            0 <= i <= n,
            match found {
                Some(k) => k as int == last_index_of(s@.take(i as int), c),
                None => last_index_of(s@.take(i as int), c) == -1,
            },
        decreases n - i,
    {
        proof {
            assert(s@.take(i + 1).drop_last() =~= s@.take(i as int));
        }
        if s.get_char(i) == c {
            found = Some(i);
        }
        i = i + 1;
    }
    proof {
        assert(s@.take(n as int) =~= s@);
    }
    found
}

/// What to call an entity showing the asset at `path`: the file name without
/// its extension, the way an engine names an object dragged into a scene.
pub fn name_of(path: &str) -> (name: String)
    ensures
        name@ == name_of_spec(path@),
{
    let n = path.unicode_len();
    proof {
        lemma_last_index_in_range(path@, '/');
    }
    let start = match find_last(path, '/') {
        Some(i) => i + 1,
        None => 0,
    };
    let file = path.substring_char(start, n);
    proof {
        lemma_last_index_in_range(file@, '.');
    }
    match find_last(file, '.') {
        Some(dot) if dot > 0 => String::from_str(file.substring_char(0, dot)),
        _ => String::from_str(file),
    }
}

} // verus!
