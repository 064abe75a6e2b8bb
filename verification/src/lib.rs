//! Data preparation for a URL classifier: the labelled URL records, their
//! one-hot encoding, and the dataset of model-ready items.

pub mod data;

use vstd::prelude::*;

verus! {

/// The path `base` extended by the relative component `component`, the way
/// a path buffer is pushed on a Unix system: a `/` goes between them unless
/// `base` is empty or already ends with one.
pub open spec fn path_push(base: Seq<char>, component: Seq<char>) -> Seq<char> {
    if base.len() > 0 && base.last() != '/' {
        base + seq!['/'] + component
    } else {
        base + component
    }
}

/// Extending a path keeps the path as its start and the component as its
/// end, with exactly one `/` between them when the path is non-empty and
/// does not already end with `/`, and nothing between them otherwise. The
/// result always ends with the component, and is non-empty ending with
/// something other than `/` whenever the component is.
pub proof fn lemma_path_push_separates(base: Seq<char>, component: Seq<char>)
    ensures
        ({
            let p = path_push(base, component);
            let sep: int = if base.len() > 0 && base.last() != '/' { 1 } else { 0 };
            &&& p.len() == base.len() + sep + component.len()
            &&& p.subrange(0, base.len() as int) == base
            &&& sep == 1 ==> p[base.len() as int] == '/'
            &&& p.subrange(base.len() + sep, p.len() as int) == component
        }),
{
    let p = path_push(base, component);
    let sep: int = if base.len() > 0 && base.last() != '/' { 1 } else { 0 };
    assert(p.subrange(0, base.len() as int) =~= base);
    assert(p.subrange(base.len() + sep, p.len() as int) =~= component);
}

fn ends_with_separator(s: &str) -> (r: bool)
    ensures
        r == (s@.len() > 0 && s@.last() == '/'),
{
    let mut last: Option<char> = None;
    for c in it: s.chars()
        invariant
            it.seq() == s@,
            last == (if it.index() == 0 { None::<char> } else { Some(s@[it.index() - 1]) }),
    {
        last = Some(c);
    }
    match last {
        Some(c) => c == '/',
        None => false,
    }
}

/// Extends `path` by the relative component `component` (see `path_push`).
pub fn push_component(path: &mut String, component: &str)
    ensures
        final(path)@ == path_push(old(path)@, component@),
        old(path)@.len() > 0 && old(path)@.last() != '/' ==> final(path)@ == old(path)@ + seq!['/'] + component@,
        old(path)@.len() == 0 || old(path)@.last() == '/' ==> final(path)@ == old(path)@ + component@,
{
    if ends_with_separator(path.as_str()) || path.as_str().is_empty() {
        path.append(component);
    } else {
        proof {
            reveal_strlit("/");
        }
        path.append("/");
        path.append(component);
    }
}

/// The path of the labelled URL list that training reads: the file
/// `balanced_urls.csv` in the `data` directory of the crate directory
/// `manifest_dir`.
pub fn test_csv(manifest_dir: &str) -> (path: String)
    ensures
        path@ == path_push(path_push(manifest_dir@, "data"@), "balanced_urls.csv"@),
        manifest_dir@.len() > 0 && manifest_dir@.last() != '/' ==> path@ == manifest_dir@ + "/data/balanced_urls.csv"@,
        manifest_dir@.len() > 0 && manifest_dir@.last() == '/' ==> path@ == manifest_dir@ + "data/balanced_urls.csv"@,
        manifest_dir@.len() == 0 ==> path@ == "data/balanced_urls.csv"@,
{
    proof {
        reveal_strlit("data");
        reveal_strlit("balanced_urls.csv");
        reveal_strlit("/data/balanced_urls.csv");
        reveal_strlit("data/balanced_urls.csv");
        lemma_path_push_separates(manifest_dir@, "data"@);
        lemma_path_push_separates(path_push(manifest_dir@, "data"@), "balanced_urls.csv"@);
        assert(path_push(path_push(manifest_dir@, "data"@), "balanced_urls.csv"@) =~= if manifest_dir@.len() > 0 && manifest_dir@.last() != '/' {
            manifest_dir@ + "/data/balanced_urls.csv"@
        } else {
            manifest_dir@ + "data/balanced_urls.csv"@
        });
    }
    let mut path = String::from_str(manifest_dir);
    push_component(&mut path, "data");
    push_component(&mut path, "balanced_urls.csv");
    path
}

} // verus!
