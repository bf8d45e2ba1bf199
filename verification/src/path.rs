//! File names and extensions of `/`-separated paths, with the meaning that
//! `std::path::Path` gives them on Unix.
use vstd::prelude::*;
use crate::text::{char_vec, char_range};

verus! {

/// The part of `s` after its last `'/'` (all of `s` when it has none).
pub open spec fn last_piece(s: Seq<char>) -> Seq<char>
    decreases s.len(),
{
    if s.len() == 0 {
        s
    } else if s.last() == '/' {
        Seq::empty()
    } else {
        last_piece(s.drop_last()).push(s.last())
    }
}

/// The last piece is a suffix of `s`.
pub proof fn lemma_last_piece(s: Seq<char>)
    ensures
        last_piece(s).len() <= s.len(),
        last_piece(s) == s.subrange(s.len() - last_piece(s).len(), s.len() as int),
        s.len() > 0 && s.last() != '/' ==> last_piece(s).len() > 0,
    decreases s.len(),
{
    if s.len() > 0 && s.last() != '/' {
        lemma_last_piece(s.drop_last());
        assert(last_piece(s) =~= s.subrange(s.len() - last_piece(s).len(), s.len() as int));
    } else if s.len() > 0 {
        assert(last_piece(s) =~= s.subrange(s.len() as int, s.len() as int));
    } else {
        assert(last_piece(s) =~= s.subrange(0, 0));
    }
}

/// The file name of a path: its last component that is neither empty nor
/// `"."`, unless that component is `".."`; trailing `'/'`s and `"."`
/// components are skipped, as `Path::file_name` does.
pub open spec fn file_name_of(p: Seq<char>) -> Option<Seq<char>>
    decreases p.len(),
{
    if p.len() == 0 {
        None
    } else if p.last() == '/' {
        file_name_of(p.drop_last())
    } else {
        let piece = last_piece(p);
        proof {
            lemma_last_piece(p);
        }
        if piece == seq!['.'] {
            file_name_of(p.take(p.len() - 1))
        } else if piece == seq!['.', '.'] {
            None
        } else {
            Some(piece)
        }
    }
}

/// The index of the last occurrence of `c` in `s`, or -1.
pub open spec fn last_index_of(s: Seq<char>, c: char) -> int
    decreases s.len(),
{
    if s.len() == 0 {
        -1
    } else if s.last() == c {
        s.len() - 1
    } else {
        last_index_of(s.drop_last(), c)
    }
}

/// The extension of a file name: what follows its last `'.'`, unless the
/// name has no `'.'` or its only `'.'` is its first character.
pub open spec fn extension_of_name(name: Seq<char>) -> Option<Seq<char>> {
    let d = last_index_of(name, '.');
    if d <= 0 {
        None
    } else {
        Some(name.subrange(d + 1, name.len() as int))
    }
}

/// The extension of a path, as `Path::extension` gives it.
pub open spec fn extension_of(p: Seq<char>) -> Option<Seq<char>> {
    match file_name_of(p) {
        Some(name) => extension_of_name(name),
        None => None,
    }
}

/// Characters of `b` that are not `c` leave the last `c` of `a + b` where it
/// was in `a`.
proof fn lemma_last_index_skips(a: Seq<char>, b: Seq<char>, c: char)
    requires
        forall|j: int| 0 <= j < b.len() ==> b[j] != c,
    ensures
        last_index_of(a + b, c) == last_index_of(a, c),
    decreases b.len(),
{
    if b.len() == 0 {
        assert(a + b =~= a);
    } else {
        assert((a + b).drop_last() =~= a + b.drop_last());
        lemma_last_index_skips(a, b.drop_last(), c);
    }
}

/// A sequence without `'/'` is its own last piece.
proof fn lemma_last_piece_whole(s: Seq<char>)
    requires
        forall|j: int| 0 <= j < s.len() ==> s[j] != '/',
    ensures
        last_piece(s) == s,
    decreases s.len(),
{
    if s.len() > 0 {
        lemma_last_piece_whole(s.drop_last());
        assert(s.drop_last().push(s.last()) =~= s);
    }
}

/// A file named `stem.ext` has the extension `ext`, where the stem is not
/// empty and neither part holds a `'/'` nor the extension a `'.'`.
pub proof fn lemma_extension_of_dotted_name(stem: Seq<char>, ext: Seq<char>)
    requires
        stem.len() > 0,
        ext.len() > 0,
        forall|j: int| 0 <= j < stem.len() ==> stem[j] != '/',
        forall|j: int| 0 <= j < ext.len() ==> ext[j] != '/' && ext[j] != '.',
    ensures
        extension_of(stem + seq!['.'] + ext) == Some(ext),
{
    let p = stem + seq!['.'] + ext;
    assert forall|j: int| 0 <= j < p.len() implies p[j] != '/' by {
        if j < stem.len() {
            assert(p[j] == stem[j]);
        } else if j > stem.len() {
            assert(p[j] == ext[j - stem.len() - 1]);
        }
    }
    lemma_last_piece_whole(p);
    assert(p.last() == ext.last());
    assert(p != seq!['.']);
    assert(p != seq!['.', '.']) by {
        if p.len() == 2 {
            assert(p[1] == ext[0]);
        }
    }
    assert(file_name_of(p) == Some(p));
    lemma_last_index_skips(stem + seq!['.'], ext, '.');
    assert((stem + seq!['.']).last() == '.');
    assert(last_index_of(stem + seq!['.'], '.') == stem.len());
    assert(p.subrange(stem.len() + 1int, p.len() as int) =~= ext);
}

/// Where in `cs` the file name of the path `cs` stands.
pub fn file_name_range(cs: &Vec<char>) -> (r: Option<(usize, usize)>)
    ensures
        match r {
            Some((a, b)) => a <= b <= cs@.len() && file_name_of(cs@) == Some(
                cs@.subrange(a as int, b as int),
            ),
            None => file_name_of(cs@) is None,
        },
{
    let n = cs.len();
    let mut end: usize = n;
    assert(cs@.take(n as int) =~= cs@);
    loop
        invariant
            n == cs@.len(),
            end <= n,
            file_name_of(cs@) == file_name_of(cs@.take(end as int)),
        decreases end,
    {
        let ghost end0 = end;
        while end > 0 && cs[end - 1] == '/'
            invariant
                n == cs@.len(),
                end <= end0 <= n,
                file_name_of(cs@) == file_name_of(cs@.take(end as int)),
            decreases end,
        {
            assert(cs@.take(end as int).drop_last() =~= cs@.take(end - 1));
            end = end - 1;
        }
        if end == 0 {
            return None;
        }
        let ghost p = cs@.take(end as int);
        assert(p.last() == cs@[end - 1]);
        let mut start: usize = end;
        assert(p.subrange(end as int, end as int) =~= Seq::<char>::empty());
        while start > 0 && cs[start - 1] != '/'
            invariant
                n == cs@.len(),
                start <= end <= n,
                p == cs@.take(end as int),
                last_piece(p) == last_piece(cs@.take(start as int)) + cs@.subrange(
                    start as int,
                    end as int,
                ),
            decreases start,
        {
            assert(cs@.take(start as int).drop_last() =~= cs@.take(start - 1));
            assert(cs@.take(start as int).last() == cs@[start - 1]);
            assert(cs@.subrange(start - 1, end as int) =~= seq![cs@[start - 1]] + cs@.subrange(
                start as int,
                end as int,
            ));
            assert(last_piece(cs@.take(start - 1)).push(cs@[start - 1]) + cs@.subrange(
                start as int,
                end as int,
            ) =~= last_piece(cs@.take(start - 1)) + cs@.subrange(start - 1, end as int));
            start = start - 1;
        }
        assert(last_piece(cs@.take(start as int)) =~= Seq::<char>::empty()) by {
            if start > 0 {
                assert(cs@.take(start as int).last() == cs@[start - 1]);
            }
        }
        assert(last_piece(p) =~= cs@.subrange(start as int, end as int));
        if end - start == 1 && cs[start] == '.' {
            assert(last_piece(p) =~= seq!['.']);
            assert(p.take(p.len() - 1) =~= cs@.take(start as int));
            end = start;
        } else if end - start == 2 && cs[start] == '.' && cs[start + 1] == '.' {
            assert(last_piece(p) =~= seq!['.', '.']);
            return None;
        } else {
            assert(last_piece(p) != seq!['.']) by {
                if end - start == 1 {
                    assert(last_piece(p)[0] == cs@[start as int]);
                }
            }
            assert(last_piece(p) != seq!['.', '.']) by {
                if end - start == 2 {
                    assert(last_piece(p)[0] == cs@[start as int]);
                    assert(last_piece(p)[1] == cs@[start + 1]);
                }
            }
            return Some((start, end));
        }
    }
}

/// The file name of `path`, as `Path::file_name` gives it.
pub fn file_name(path: &str) -> (r: Option<String>)
    ensures
        match r {
            Some(name) => file_name_of(path@) == Some(name@),
            None => file_name_of(path@) is None,
        },
{
    let cs = char_vec(path);
    match file_name_range(&cs) {
        Some((a, b)) => Some(char_range(path, a, b)),
        None => None,
    }
}

/// Where in `cs` the extension of the path `cs` stands.
pub fn extension_range(cs: &Vec<char>) -> (r: Option<(usize, usize)>)
    ensures
        match r {
            Some((a, b)) => a <= b <= cs@.len() && extension_of(cs@) == Some(
                cs@.subrange(a as int, b as int),
            ),
            None => extension_of(cs@) is None,
        },
{
    match file_name_range(cs) {
        None => None,
        Some((start, end)) => {
            let ghost name = cs@.subrange(start as int, end as int);
            let mut k: usize = end;
            assert(cs@.subrange(start as int, k as int) =~= name);
            while k > start && cs[k - 1] != '.'
                invariant
                    start <= k <= end <= cs@.len(),
                    name == cs@.subrange(start as int, end as int),
                    last_index_of(name, '.') == last_index_of(
                        cs@.subrange(start as int, k as int),
                        '.',
                    ),
                decreases k,
            {
                assert(cs@.subrange(start as int, k as int).drop_last() =~= cs@.subrange(
                    start as int,
                    k - 1,
                ));
                k = k - 1;
            }
            if k - start <= 1 {
                assert(last_index_of(name, '.') <= 0) by {
                    if k == start {
                        assert(cs@.subrange(start as int, k as int).len() == 0);
                    } else {
                        assert(cs@.subrange(start as int, k as int).last() == cs@[start as int]);
                    }
                }
                None
            } else {
                assert(last_index_of(name, '.') == k - 1 - start) by {
                    assert(cs@.subrange(start as int, k as int).last() == cs@[k - 1]);
                }
                assert(name.subrange(k - start, name.len() as int) =~= cs@.subrange(
                    k as int,
                    end as int,
                ));
                Some((k, end))
            }
        }
    }
}

/// The extension of `path`, as `Path::extension` gives it.
pub fn extension(path: &str) -> (r: Option<String>)
    ensures
        match r {
            Some(ext) => extension_of(path@) == Some(ext@),
            None => extension_of(path@) is None,
        },
{
    let cs = char_vec(path);
    match extension_range(&cs) {
        Some((a, b)) => Some(char_range(path, a, b)),
        None => None,
    }
}

/// The text ".git", which is removed from a repository URL's last piece to
/// name its clone directory.
pub open spec fn git_suffix() -> Seq<char> {
    seq!['.', 'g', 'i', 't']
}

/// `s` with every occurrence of ".git" removed, the occurrences taken from
/// left to right without overlapping, as `str::replace(".git", "")` does.
pub open spec fn without_git(s: Seq<char>) -> Seq<char>
    decreases s.len(),
{
    if s.len() < 4 {
        s
    } else if s.take(4) == git_suffix() {
        without_git(s.skip(4))
    } else {
        seq![s[0]] + without_git(s.drop_first())
    }
}

/// The name of the directory that a repository at `url` is cloned into: the
/// part of the URL after its last '/', with ".git" removed.
pub open spec fn clone_dir_name(url: Seq<char>) -> Seq<char> {
    without_git(last_piece(url))
}

/// The directory name for cloning the repository at `url`.
pub fn repo_dir_name(url: &str) -> (r: String)
    ensures
        r@ == clone_dir_name(url@),
{
    let cs = char_vec(url);
    let n = cs.len();
    let mut start: usize = n;
    assert(cs@.subrange(n as int, n as int) =~= Seq::<char>::empty());
    assert(cs@.take(n as int) =~= cs@);
    while start > 0 && cs[start - 1] != '/'
        invariant
            n == cs@.len(),
            start <= n,
            last_piece(cs@) == last_piece(cs@.take(start as int)) + cs@.subrange(
                start as int,
                n as int,
            ),
        decreases start,
    {
        assert(cs@.take(start as int).drop_last() =~= cs@.take(start - 1));
        assert(cs@.take(start as int).last() == cs@[start - 1]);
        assert(last_piece(cs@.take(start - 1)).push(cs@[start - 1]) + cs@.subrange(
            start as int,
            n as int,
        ) =~= last_piece(cs@.take(start - 1)) + cs@.subrange(start - 1, n as int));
        start = start - 1;
    }
    assert(last_piece(cs@.take(start as int)) =~= Seq::<char>::empty()) by {
        if start > 0 {
            assert(cs@.take(start as int).last() == cs@[start - 1]);
        }
    }
    let ghost piece = cs@.subrange(start as int, n as int);
    assert(last_piece(cs@) =~= piece);
    let mut r = String::new();
    let mut i: usize = start;
    assert(cs@.subrange(start as int, n as int).skip(0) =~= piece);
    while i < n
        invariant
            n == cs@.len(),
            cs@ == url@,
            start <= i <= n,
            piece == cs@.subrange(start as int, n as int),
            without_git(piece) == r@ + without_git(cs@.subrange(i as int, n as int)),
        decreases n - i,
    {
        let ghost rest = cs@.subrange(i as int, n as int);
        if n - i >= 4 && cs[i] == '.' && cs[i + 1] == 'g' && cs[i + 2] == 'i' && cs[i + 3] == 't' {
            assert(rest.take(4) =~= git_suffix());
            assert(rest.skip(4) =~= cs@.subrange(i + 4, n as int));
            i = i + 4;
        } else {
            assert(rest.len() >= 4 ==> rest.take(4) != git_suffix()) by {
                if rest.len() >= 4 && rest.take(4) == git_suffix() {
                    assert(rest.take(4)[0] == cs@[i as int]);
                    assert(rest.take(4)[1] == cs@[i + 1]);
                    assert(rest.take(4)[2] == cs@[i + 2]);
                    assert(rest.take(4)[3] == cs@[i + 3]);
                }
            }
            assert(rest.drop_first() =~= cs@.subrange(i + 1, n as int));
            assert(without_git(rest) == seq![rest[0]] + without_git(rest.drop_first())) by {
                if rest.len() < 4 {
                    assert(seq![rest[0]] + rest.drop_first() =~= rest);
                }
            }
            let ghost before = r@;
            r.append(char_range(url, i, i + 1).as_str());
            assert(cs@.subrange(i as int, i + 1) =~= seq![rest[0]]);
            assert(r@ + without_git(cs@.subrange(i + 1, n as int)) =~= before + (seq![rest[0]]
                + without_git(rest.drop_first())));
            i = i + 1;
        }
    }
    assert(cs@.subrange(n as int, n as int) =~= Seq::<char>::empty());
    assert(r@ =~= r@ + without_git(Seq::<char>::empty()));
    r
}

} // verus!
