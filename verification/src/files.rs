use vstd::prelude::*;
use crate::chars::{str_to_chars, chars_to_string, chars_end_with, spec_ends_with};

verus! {

/// The final path component: the characters after the last `/`, once any
/// trailing `/` have been dropped.
pub open spec fn tail_component(s: Seq<char>) -> Seq<char>
    decreases s.len(),
{
    if s.len() == 0 || s.last() == '/' {
        Seq::<char>::empty()
    } else {
        tail_component(s.drop_last()).push(s.last())
    }
}

pub open spec fn strip_trailing_slashes(s: Seq<char>) -> Seq<char>
    decreases s.len(),
{
    if s.len() > 0 && s.last() == '/' {
        strip_trailing_slashes(s.drop_last())
    } else {
        s
    }
}

/// The file name a path names: the last component, ignoring trailing
/// separators.  An empty path and a path ending in `..` have none.
pub open spec fn spec_file_name(path: Seq<char>) -> Option<Seq<char>> {
    let trimmed = strip_trailing_slashes(path);
    let name = tail_component(trimmed);
    if name.len() == 0 || name == ".."@ {
        None
    } else {
        Some(name)
    }
}

/// The file name of each path that has one, in order.
pub open spec fn spec_file_names(paths: Seq<Seq<char>>) -> Seq<Seq<char>>
    decreases paths.len(),
{
    if paths.len() == 0 {
        Seq::<Seq<char>>::empty()
    } else {
        let rest = spec_file_names(paths.drop_first());
        match spec_file_name(paths.first()) {
            Some(n) => seq![n] + rest,
            None => rest,
        }
    }
}

/// The paths that end with the given suffix, in order.
pub open spec fn spec_paths_with_suffix(paths: Seq<Seq<char>>, suffix: Seq<char>) -> Seq<
    Seq<char>,
>
    decreases paths.len(),
{
    if paths.len() == 0 {
        Seq::<Seq<char>>::empty()
    } else {
        let rest = spec_paths_with_suffix(paths.drop_first(), suffix);
        if spec_ends_with(paths.first(), suffix) {
            seq![paths.first()] + rest
        } else {
            rest
        }
    }
}

fn tail_component_exec(v: &Vec<char>, end: usize) -> (r: Vec<char>)
    requires
        end <= v@.len(),
    ensures
        r@ == tail_component(v@.subrange(0, end as int)),
    decreases end,
{
    if end == 0 {
        proof {
            assert(v@.subrange(0, 0).len() == 0);
        }
        Vec::new()
    } else {
        let c = v[end - 1];
        proof {
            assert(v@.subrange(0, end as int).last() == c);
        }
        if c == '/' {
            Vec::new()
        } else {
            let mut r = tail_component_exec(v, end - 1);
            proof {
                assert(v@.subrange(0, end as int).drop_last() =~= v@.subrange(
                    0,
                    end as int - 1,
                ));
            }
            r.push(c);
            r
        }
    }
}

/// From a file path, the file name it ends in, or `None` where the path has
/// none (it is empty, all separators, or ends in `..`).
pub fn get_file_name(file_path: &str) -> (r: Option<String>)
    ensures
        match r {
            Some(s) => spec_file_name(file_path@) == Some(s@),
            None => spec_file_name(file_path@) is None,
        },
{
    let v = str_to_chars(file_path);
    let mut end = v.len();
    proof {
        assert(v@.subrange(0, end as int) =~= v@);
    }
    while end > 0 && v[end - 1] == '/'
        invariant
            end <= v@.len(),
            strip_trailing_slashes(v@) == strip_trailing_slashes(v@.subrange(0, end as int)),
        decreases end,
    {
        proof {
            assert(v@.subrange(0, end as int).last() == v@[end - 1]);
            assert(v@.subrange(0, end as int).drop_last() =~= v@.subrange(0, end as int - 1));
        }
        end = end - 1;
    }
    proof {
        if end > 0 {
            assert(v@.subrange(0, end as int).last() == v@[end - 1]);
        }
        assert(strip_trailing_slashes(v@.subrange(0, end as int)) == v@.subrange(0, end as int));
    }
    let name = tail_component_exec(&v, end);
    proof {
        reveal_strlit("..");
    }
    if name.len() == 0 {
        return None;
    }
    if name.len() == 2 && name[0] == '.' && name[1] == '.' {
        proof {
            assert(name@ =~= ".."@);
        }
        return None;
    }
    proof {
        if name@.len() == 2 && name@ == ".."@ {
            assert(name@[0] == '.' && name@[1] == '.');
        }
    }
    Some(chars_to_string(&name))
}

/// The file names of the given paths, skipping paths that have none.
pub fn get_file_names(file_paths: &Vec<String>) -> (r: Vec<String>)
    ensures
        r@.map_values(|s: String| s@) == spec_file_names(
            file_paths@.map_values(|s: String| s@),
        ),
{
    let mut r: Vec<String> = Vec::new();
    let n = file_paths.len();
    let mut i: usize = 0;
    proof {
        assert(file_paths@.map_values(|s: String| s@).skip(0) =~= file_paths@.map_values(
            |s: String| s@,
        ));
    }
    while i < n
        invariant
            i <= n,
            n == file_paths@.len(),
            spec_file_names(file_paths@.map_values(|s: String| s@)) == r@.map_values(
                |s: String| s@,
            ) + spec_file_names(file_paths@.map_values(|s: String| s@).skip(i as int)),
        decreases n - i,
    {
        let ghost all = file_paths@.map_values(|s: String| s@);
        let ghost pre = r@.map_values(|s: String| s@);
        match get_file_name(file_paths[i].as_str()) {
            Some(name) => {
                r.push(name);
            },
            None => {},
        }
        i = i + 1;
        proof {
            assert(all.skip(i - 1).first() == all[i - 1]);
            assert(all.skip(i - 1).drop_first() =~= all.skip(i as int));
            match spec_file_name(all[i - 1]) {
                Some(nm) => {
                    assert(r@.map_values(|s: String| s@) =~= pre + seq![nm]);
                    assert(pre + (seq![nm] + spec_file_names(all.skip(i as int))) =~= (pre
                        + seq![nm]) + spec_file_names(all.skip(i as int)));
                },
                None => {},
            }
        }
    }
    proof {
        assert(file_paths@.map_values(|s: String| s@).skip(n as int).len() == 0);
        assert(r@.map_values(|s: String| s@) =~= r@.map_values(|s: String| s@) + spec_file_names(
            file_paths@.map_values(|s: String| s@).skip(n as int),
        ));
    }
    r
}

/// The given paths that end with `suffix`: the pure half of the directory
/// scan, once a caller has listed the files under a root.
pub fn paths_with_suffix(paths: &Vec<String>, suffix: &str) -> (r: Vec<String>)
    ensures
        r@.map_values(|s: String| s@) == spec_paths_with_suffix(
            paths@.map_values(|s: String| s@),
            suffix@,
        ),
{
    let suffix_chars = str_to_chars(suffix);
    let mut r: Vec<String> = Vec::new();
    let n = paths.len();
    let mut i: usize = 0;
    proof {
        assert(paths@.map_values(|s: String| s@).skip(0) =~= paths@.map_values(|s: String| s@));
    }
    while i < n
        invariant
            i <= n,
            n == paths@.len(),
            suffix_chars@ == suffix@,
            spec_paths_with_suffix(paths@.map_values(|s: String| s@), suffix@) == r@.map_values(
                |s: String| s@,
            ) + spec_paths_with_suffix(
                paths@.map_values(|s: String| s@).skip(i as int),
                suffix@,
            ),
        decreases n - i,
    {
        let ghost all = paths@.map_values(|s: String| s@);
        let ghost pre = r@.map_values(|s: String| s@);
        let chars = str_to_chars(paths[i].as_str());
        if chars_end_with(&chars, &suffix_chars) {
            let copy = paths[i].clone();
            r.push(copy);
        }
        i = i + 1;
        proof {
            assert(all.skip(i - 1).first() == all[i - 1]);
            assert(all.skip(i - 1).drop_first() =~= all.skip(i as int));
            if spec_ends_with(all[i - 1], suffix@) {
                assert(r@.map_values(|s: String| s@) =~= pre + seq![all[i - 1]]);
                assert(pre + (seq![all[i - 1]] + spec_paths_with_suffix(
                    all.skip(i as int),
                    suffix@,
                )) =~= (pre + seq![all[i - 1]]) + spec_paths_with_suffix(
                    all.skip(i as int),
                    suffix@,
                ));
            }
        }
    }
    proof {
        assert(r@.map_values(|s: String| s@) =~= r@.map_values(|s: String| s@)
            + spec_paths_with_suffix(paths@.map_values(|s: String| s@).skip(n as int), suffix@));
    }
    r
}

} // verus!
