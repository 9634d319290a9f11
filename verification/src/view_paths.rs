//! Locations in the virtual folder tree of a project. A location is a
//! `/`-separated path such as `folders/Sprites/Npcs.yy`: its first part is the
//! root `folders`, and each later part names a folder, with a `.yy` ending.
use vstd::prelude::*;

verus! {

/// `s` with every trailing `.yy` removed (as `str::trim_end_matches(".yy")`).
pub open spec fn trim_yy_spec(s: Seq<char>) -> Seq<char>
    decreases s.len(),
{
    if s.len() >= 3 && s.subrange(s.len() - 3, s.len() as int) == ".yy"@ {
        trim_yy_spec(s.subrange(0, s.len() - 3))
    } else {
        s
    }
}

/// The parts of `s` between `/` separators (as `str::split('/')`).
pub open spec fn split_slash(s: Seq<char>) -> Seq<Seq<char>>
    decreases s.len(),
{
    if s.len() == 0 {
        seq![Seq::empty()]
    } else {
        let prev = split_slash(s.drop_last());
        if s.last() == '/' {
            prev.push(Seq::empty())
        } else {
            prev.update(prev.len() - 1, prev.last().push(s.last()))
        }
    }
}

/// The folder names along a location, without the root: each part after the
/// first, with its `.yy` ending trimmed.
pub open spec fn component_names(loc: Seq<char>) -> Seq<Seq<char>> {
    split_slash(loc).skip(1).map_values(|c: Seq<char>| trim_yy_spec(c))
}

/// The location of the child `name` of the folder at `loc`.
pub open spec fn join_spec(loc: Seq<char>, name: Seq<char>) -> Seq<char> {
    trim_yy_spec(loc) + "/"@ + name + ".yy"@
}

proof fn lemma_split_nonempty(s: Seq<char>)
    ensures
        split_slash(s).len() >= 1,
    decreases s.len(),
{
    if s.len() > 0 {
        lemma_split_nonempty(s.drop_last());
    }
}

/// Texts of paths that may end in `.yy`.
pub trait PathStrExt {
    /// The text of the path.
    spec fn path_text(&self) -> Seq<char>;

    /// The path without its trailing `.yy` endings.
    fn trim_yy(&self) -> (r: String)
        ensures
            r@ == trim_yy_spec(self.path_text()),
    ;
}

impl PathStrExt for &str {
    open spec fn path_text(&self) -> Seq<char> {
        (**self)@
    }

    fn trim_yy(&self) -> (r: String) {
        trim_yy(*self)
    }
}

/// `s` without its trailing `.yy` endings.
pub fn trim_yy(s: &str) -> (r: String)
    ensures
        r@ == trim_yy_spec(s@),
{
    let n = s.unicode_len();
    let mut end: usize = n;
    proof {
        assert(s@.subrange(0, n as int) =~= s@);
    }
    while end >= 3 && s.get_char(end - 3) == '.' && s.get_char(end - 2) == 'y' && s.get_char(end - 1) == 'y'
        invariant
            end <= n,
            n == s@.len(),
            trim_yy_spec(s@.subrange(0, end as int)) == trim_yy_spec(s@),
        decreases end,
    {
        proof {
            let t = s@.subrange(0, end as int);
            assert(t.subrange(t.len() - 3, t.len() as int) =~= ".yy"@) by {
                reveal_strlit(".yy");
            }
            assert(t.subrange(0, t.len() - 3) =~= s@.subrange(0, end - 3));
        }
        end = end - 3;
    }
    proof {
        let t = s@.subrange(0, end as int);
        if t.len() >= 3 {
            reveal_strlit(".yy");
            if t.subrange(t.len() - 3, t.len() as int) == ".yy"@ {
                assert(t.subrange(t.len() - 3, t.len() as int)[0] == '.');
                assert(t.subrange(t.len() - 3, t.len() as int)[1] == 'y');
                assert(t.subrange(t.len() - 3, t.len() as int)[2] == 'y');
                assert(false);
            }
        }
        if end == n {
            assert(t =~= s@);
        }
    }
    s.substring_char(0, end).to_owned()
}

/// The folder names along a location, without the root (see [`component_names`]).
pub fn component_paths(loc: &str) -> (r: Vec<String>)
    ensures
        r@.map_values(|c: String| c@) == component_names(loc@),
{
    let n = loc.unicode_len();
    let mut parts: Vec<String> = Vec::new();
    let mut start: usize = 0;
    let mut i: usize = 0;
    proof {
        assert(loc@.subrange(0, 0) =~= Seq::<char>::empty());
    }
    while i < n
        invariant
            n == loc@.len(),
            start <= i <= n,
            split_slash(loc@.subrange(0, i as int)) == parts@.map_values(|c: String| c@).push(
                loc@.subrange(start as int, i as int),
            ),
        decreases n - i,
    {
        let c = loc.get_char(i);
        proof {
            let pre = loc@.subrange(0, i as int + 1);
            assert(pre.drop_last() =~= loc@.subrange(0, i as int));
            assert(pre.last() == c);
        }
        if c == '/' {
            let part = loc.substring_char(start, i).to_owned();
            parts.push(part);
            start = i + 1;
            proof {
                assert(loc@.subrange(start as int, i as int + 1) =~= Seq::<char>::empty());
                assert(split_slash(loc@.subrange(0, i as int + 1)) =~= parts@.map_values(|c: String| c@).push(
                    loc@.subrange(start as int, i as int + 1),
                ));
            }
        } else {
            proof {
                assert(loc@.subrange(start as int, i as int + 1) =~= loc@.subrange(start as int, i as int).push(c));
                assert(split_slash(loc@.subrange(0, i as int + 1)) =~= parts@.map_values(|c: String| c@).push(
                    loc@.subrange(start as int, i as int + 1),
                ));
            }
        }
        i = i + 1;
    }
    let last = loc.substring_char(start, n).to_owned();
    parts.push(last);
    proof {
        assert(loc@.subrange(0, n as int) =~= loc@);
        assert(split_slash(loc@) =~= parts@.map_values(|c: String| c@));
    }
    let mut out: Vec<String> = Vec::new();
    let mut j: usize = 1;
    let ghost all = parts@.map_values(|c: String| c@);
    while j < parts.len()
        invariant
            1 <= j <= parts@.len(),
            all == parts@.map_values(|c: String| c@),
            out@.map_values(|c: String| c@) == all.subrange(1, j as int).map_values(|c: Seq<char>| trim_yy_spec(c)),
        decreases parts@.len() - j,
    {
        let t = trim_yy(parts[j].as_str());
        proof {
            assert(all[j as int] == parts@[j as int]@);
        }
        let ghost old_out = out@;
        out.push(t);
        proof {
            assert(out@.map_values(|c: String| c@) =~= old_out.map_values(|c: String| c@).push(trim_yy_spec(all[j as int])));
            assert(all.subrange(1, j as int + 1) =~= all.subrange(1, j as int).push(all[j as int]));
            assert(out@.map_values(|c: String| c@) =~= all.subrange(1, j as int + 1).map_values(|c: Seq<char>| trim_yy_spec(c)));
        }
        j = j + 1;
    }
    proof {
        assert(all.skip(1) =~= all.subrange(1, all.len() as int));
    }
    out
}

/// The location of the child `name` of the folder at `loc`: `loc` without its
/// `.yy` ending, then `/`, the name and `.yy`.
pub fn join(loc: &str, name: &str) -> (r: String)
    ensures
        r@ == join_spec(loc@, name@),
{
    let mut r = trim_yy(loc);
    r.append("/");
    r.append(name);
    r.append(".yy");
    r
}


/// Whether `s` holds no `/`.
pub open spec fn no_slash(s: Seq<char>) -> bool {
    forall|i: int| 0 <= i < s.len() ==> s[i] != '/'
}

/// Whether `name` can name a folder in a location: it holds no `/` and does
/// not end in `.yy`.
pub open spec fn simple_folder_name(name: Seq<char>) -> bool {
    no_slash(name) && trim_yy_spec(name) == name
}

proof fn lemma_split_append(s: Seq<char>, t: Seq<char>)
    requires
        no_slash(t),
    ensures
        split_slash(s + t) == split_slash(s).update(
            split_slash(s).len() - 1,
            split_slash(s).last() + t,
        ),
    decreases t.len(),
{
    lemma_split_nonempty(s);
    let sp = split_slash(s);
    if t.len() == 0 {
        assert(s + t =~= s);
        assert(sp.last() + t =~= sp.last());
        assert(sp.update(sp.len() - 1, sp.last()) =~= sp);
    } else {
        lemma_split_append(s, t.drop_last());
        assert((s + t).drop_last() =~= s + t.drop_last());
        assert((s + t).last() == t.last());
        assert(t.last() != '/');
        let prev = split_slash(s + t.drop_last());
        assert(prev.len() == sp.len());
        assert(prev.last() == sp.last() + t.drop_last());
        assert((sp.last() + t.drop_last()).push(t.last()) =~= sp.last() + t);
        assert(prev.update(prev.len() - 1, prev.last().push(t.last())) =~= sp.update(
            sp.len() - 1,
            sp.last() + t,
        ));
    }
}

proof fn lemma_trim_append_yy(x: Seq<char>)
    ensures
        trim_yy_spec(x + ".yy"@) == trim_yy_spec(x),
{
    reveal_strlit(".yy");
    let s = x + ".yy"@;
    assert(s.subrange(s.len() - 3, s.len() as int) =~= ".yy"@);
    assert(s.subrange(0, s.len() - 3) =~= x);
}

proof fn lemma_components_of_trim(s: Seq<char>)
    ensures
        component_names(trim_yy_spec(s)) == component_names(s),
    decreases s.len(),
{
    if s.len() >= 3 && s.subrange(s.len() - 3, s.len() as int) == ".yy"@ {
        let s2 = s.subrange(0, s.len() - 3);
        lemma_components_of_trim(s2);
        reveal_strlit(".yy");
        assert(s =~= s2 + ".yy"@);
        assert(no_slash(".yy"@));
        lemma_split_append(s2, ".yy"@);
        lemma_split_nonempty(s2);
        let a = split_slash(s2);
        let b = split_slash(s);
        lemma_trim_append_yy(a.last());
        assert(b.skip(1).map_values(|c: Seq<char>| trim_yy_spec(c)) =~= a.skip(1).map_values(
            |c: Seq<char>| trim_yy_spec(c),
        ));
    }
}

/// The locations of the root folder, `folders`, has no folder names.
pub proof fn lemma_root_components()
    ensures
        component_names("folders"@) == Seq::<Seq<char>>::empty(),
        no_slash("folders"@),
{
    reveal_strlit("folders");
    assert(no_slash("folders"@));
    lemma_split_append(Seq::empty(), "folders"@);
    assert(Seq::<char>::empty() + "folders"@ =~= "folders"@);
    assert(component_names("folders"@) =~= Seq::<Seq<char>>::empty());
}

/// The folder names of a child's location are those of its parent's
/// location followed by the child's name.
pub proof fn lemma_join_components(loc: Seq<char>, name: Seq<char>)
    requires
        simple_folder_name(name),
    ensures
        component_names(join_spec(loc, name)) == component_names(loc).push(name),
        join_spec(loc, name) != "folders"@,
{
    reveal_strlit(".yy");
    reveal_strlit("/");
    let a = trim_yy_spec(loc);
    let t = name + ".yy"@;
    let j = join_spec(loc, name);
    assert(no_slash(t));
    assert(j =~= a.push('/') + t);
    lemma_split_append(a.push('/'), t);
    lemma_split_nonempty(a);
    assert(a.push('/').drop_last() =~= a);
    let sa = split_slash(a);
    assert(split_slash(a.push('/')) == sa.push(Seq::<char>::empty()));
    assert(Seq::<char>::empty() + t =~= t);
    assert(split_slash(j) =~= sa.push(t));
    lemma_trim_append_yy(name);
    assert(sa.push(t).skip(1) =~= sa.skip(1).push(t));
    assert(component_names(j) =~= component_names(a).push(name));
    lemma_components_of_trim(loc);
    assert(j[a.len() as int] == '/');
    lemma_root_components();
}
} // verus!
