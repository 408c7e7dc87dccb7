//! Where registry files are looked for, which files are candidates, and
//! which paths are probed for an entry's try-exec hint.

use vstd::prelude::*;

use crate::error::LaunchError;
use crate::text::{join_path, joined, pieces, same_text, split_on, views};

verus! {

/// The registry directory under the user's data home.
pub open spec fn primary_dir(data_home: Option<Seq<char>>, home: Option<Seq<char>>) -> Option<
    Seq<char>,
> {
    match data_home {
        Some(d) => Some(joined(d, "applications"@)),
        None => match home {
            Some(h) => Some(joined(h, ".local/share/applications"@)),
            None => None,
        },
    }
}

/// The system registry directories, in the order listed.
pub open spec fn system_dirs(data_dirs: Option<Seq<char>>) -> Seq<Seq<char>> {
    match data_dirs {
        Some(v) => pieces(v, ':').map_values(|d: Seq<char>| joined(d, "applications"@)),
        None => seq!["/usr/local/share/applications"@, "/usr/share/applications"@],
    }
}

/// The registry directories, highest precedence first: the one under the
/// data home (`$XDG_DATA_HOME`, else `$HOME/.local/share`), then one under
/// each system data directory (`$XDG_DATA_DIRS`, colon-separated, else the
/// two usual defaults). Fails where neither the data home nor the home is
/// known.
pub fn registry_dirs(data_home: Option<&str>, home: Option<&str>, data_dirs: Option<&str>) -> (r:
    Result<Vec<String>, LaunchError>)
    ensures
        match primary_dir(opt_str_view(data_home), opt_str_view(home)) {
            Some(p) => r matches Ok(v) && views(v@) == seq![p] + system_dirs(
                opt_str_view(data_dirs),
            ),
            None => r == Err::<Vec<String>, LaunchError>(LaunchError::NoHomeDirectory),
        },
{
    let mut out: Vec<String> = Vec::new();
    match data_home {
        Some(d) => out.push(join_path(d, "applications")),
        None => match home {
            Some(h) => out.push(join_path(h, ".local/share/applications")),
            None => return Err(LaunchError::NoHomeDirectory),
        },
    }
    let ghost first = views(out@);
    match data_dirs {
        Some(v) => {
            let parts = split_on(v, ':');
            let mut i: usize = 0;
            while i < parts.len()
                invariant
                    i <= parts@.len(),
                    views(parts@) == pieces(v@, ':'),
                    views(out@) == first + views(parts@).take(i as int).map_values(
                        |d: Seq<char>| joined(d, "applications"@),
                    ),
                decreases parts.len() - i,
            {
                let ghost before = views(out@);
                out.push(join_path(parts[i].as_str(), "applications"));
                assert(views(parts@).take(i + 1) == views(parts@).take(i as int).push(parts@[i as int]@));
                assert(views(out@) == before.push(joined(parts@[i as int]@, "applications"@)));
                i = i + 1;
            }
            assert(views(parts@).take(parts@.len() as int) == views(parts@));
        },
        None => {
            out.push("/usr/local/share/applications".to_owned());
            out.push("/usr/share/applications".to_owned());
        },
    }
    Ok(out)
}

/// The view of an optional string slice.
pub open spec fn opt_str_view(o: Option<&str>) -> Option<Seq<char>> {
    match o {
        Some(s) => Some(s@),
        None => None,
    }
}

/// Whether a file name has the registry's suffix after a non-empty stem.
pub open spec fn is_registry_file(n: Seq<char>) -> bool {
    n.len() > ".desktop"@.len() && n.subrange(n.len() - ".desktop"@.len(), n.len() as int)
        == ".desktop"@
}

/// The identifier that a registry file's name gives: the name without its
/// `.desktop` suffix, or `None` where the file is no registry file.
pub fn desktop_stem(file_name: &str) -> (r: Option<&str>)
    ensures
        r is Some <==> is_registry_file(file_name@),
        r matches Some(s) ==> s@ == file_name@.subrange(
            0,
            file_name@.len() - ".desktop"@.len(),
        ),
{
    let suffix = ".desktop";
    let n = file_name.unicode_len();
    let k = suffix.unicode_len();
    if n <= k {
        return None;
    }
    let tail = file_name.substring_char(n - k, n);
    if !same_text(tail, suffix) {
        return None;
    }
    Some(file_name.substring_char(0, n - k))
}

/// What follows the last `/` of a path.
pub open spec fn base_name(h: Seq<char>) -> Seq<char>
    decreases h.len(),
{
    if h.len() == 0 || h.last() == '/' {
        Seq::empty()
    } else {
        base_name(h.drop_last()).push(h.last())
    }
}

fn base_of(h: &str) -> (r: &str)
    ensures
        r@ == base_name(h@),
{
    let n = h.unicode_len();
    let mut j: usize = n;
    assert(h@.subrange(0, n as int) == h@);
    assert(h@.subrange(n as int, n as int) == Seq::<char>::empty());
    while j > 0 && h.get_char(j - 1) != '/'
        invariant
            n == h@.len(),
            j <= n,
            base_name(h@) == base_name(h@.subrange(0, j as int)) + h@.subrange(j as int, n as int),
        decreases j,
    {
        let ghost pre = h@.subrange(0, j as int);
        assert(pre.drop_last() == h@.subrange(0, j - 1));
        assert(h@.subrange(j - 1, n as int) == seq![pre.last()] + h@.subrange(j as int, n as int));
        j = j - 1;
    }
    h.substring_char(j, n)
}

/// The paths to probe for a try-exec hint, in order: the hint itself, then
/// its base name under each directory of the executable search path (none
/// where the hint ends in `/` or no search path is set).
pub open spec fn probe_paths(hint: Seq<char>, search_path: Option<Seq<char>>) -> Seq<Seq<char>> {
    match search_path {
        Some(sp) => if base_name(hint).len() > 0 {
            seq![hint] + pieces(sp, ':').map_values(|d: Seq<char>| joined(d, base_name(hint)))
        } else {
            seq![hint]
        },
        None => seq![hint],
    }
}

/// The paths whose existence decides whether a try-exec hint is found.
pub fn try_exec_candidates(hint: &str, search_path: Option<&str>) -> (r: Vec<String>)
    ensures
        views(r@) == probe_paths(hint@, opt_str_view(search_path)),
{
    let mut out: Vec<String> = Vec::new();
    out.push(hint.to_owned());
    let ghost first = views(out@);
    assert(first == seq![hint@]);
    let base = base_of(hint);
    if base.unicode_len() == 0 {
        return out;
    }
    match search_path {
        Some(sp) => {
            let parts = split_on(sp, ':');
            let mut i: usize = 0;
            while i < parts.len()
                invariant
                    i <= parts@.len(),
                    base@ == base_name(hint@),
                    views(parts@) == pieces(sp@, ':'),
                    views(out@) == first + views(parts@).take(i as int).map_values(
                        |d: Seq<char>| joined(d, base_name(hint@)),
                    ),
                decreases parts.len() - i,
            {
                let ghost before = views(out@);
                out.push(join_path(parts[i].as_str(), base));
                assert(views(parts@).take(i + 1) == views(parts@).take(i as int).push(parts@[i as int]@));
                assert(views(out@) == before.push(joined(parts@[i as int]@, base@)));
                i = i + 1;
            }
            assert(views(parts@).take(parts@.len() as int) == views(parts@));
            out
        },
        None => out,
    }
}

} // verus!
