//! The discovery engine: every declared dotfile is resolved to a path, and
//! the paths that exist on disk come back, in declaration order; a path
//! that does not exist is left out, never reported as an error.

use vstd::prelude::*;
use vstd::string::*;

use crate::config::Dotfile;
use crate::fs_probe::path_exists;
use crate::paths::{opt_str_view, resolve, resolved_template};
use crate::text::views_of;

verus! {

/// `sub` is an order-preserving selection from `sup`.
pub open spec fn is_subsequence(sub: Seq<Seq<char>>, sup: Seq<Seq<char>>) -> bool
    decreases sup.len(), sub.len(),
{
    if sub.len() == 0 {
        true
    } else if sup.len() == 0 {
        false
    } else if sub[0] == sup[0] {
        is_subsequence(sub.drop_first(), sup.drop_first())
    } else {
        is_subsequence(sub, sup.drop_first())
    }
}

/// A selection from `sup` is also a selection from `sup` grown at the end.
pub proof fn lemma_subseq_push_sup(sub: Seq<Seq<char>>, sup: Seq<Seq<char>>, x: Seq<char>)
    requires
        is_subsequence(sub, sup),
    ensures
        is_subsequence(sub, sup.push(x)),
    decreases sup.len(),
{
    if sub.len() == 0 {
    } else {
        assert(sup.len() > 0);
        if sub[0] == sup[0] {
            lemma_subseq_push_sup(sub.drop_first(), sup.drop_first(), x);
            assert(sup.push(x).drop_first() =~= sup.drop_first().push(x));
            assert(sub[0] == sup.push(x)[0]);
        } else {
            lemma_subseq_push_sup(sub, sup.drop_first(), x);
            assert(sup.push(x).drop_first() =~= sup.drop_first().push(x));
        }
    }
}

/// Growing both ends by the same element keeps the selection.
pub proof fn lemma_subseq_push_both(sub: Seq<Seq<char>>, sup: Seq<Seq<char>>, x: Seq<char>)
    requires
        is_subsequence(sub, sup),
    ensures
        is_subsequence(sub.push(x), sup.push(x)),
    decreases sup.len(),
{
    if sub.len() == 0 {
        if sup.len() == 0 {
            assert(sub.push(x)[0] == sup.push(x)[0]);
            assert(sub.push(x).drop_first() =~= sub);
            assert(sup.push(x).drop_first() =~= sup);
            assert(is_subsequence(sub.push(x).drop_first(), sup.push(x).drop_first()));
        } else {
            if sub.push(x)[0] == sup.push(x)[0] {
                assert(sub.push(x).drop_first().len() == 0);
                assert(is_subsequence(sub.push(x).drop_first(), sup.push(x).drop_first()));
            } else {
                lemma_subseq_push_both(sub, sup.drop_first(), x);
                assert(sup.push(x).drop_first() =~= sup.drop_first().push(x));
                assert(is_subsequence(sub.push(x), sup.push(x).drop_first()));
            }
        }
    } else {
        assert(sup.len() > 0);
        if sub[0] == sup[0] {
            lemma_subseq_push_both(sub.drop_first(), sup.drop_first(), x);
            assert(sub.push(x).drop_first() =~= sub.drop_first().push(x));
            assert(sup.push(x).drop_first() =~= sup.drop_first().push(x));
            assert(sub.push(x)[0] == sup.push(x)[0]);
        } else {
            lemma_subseq_push_both(sub, sup.drop_first(), x);
            assert(sup.push(x).drop_first() =~= sup.drop_first().push(x));
            assert(sub.push(x)[0] != sup.push(x)[0]);
        }
    }
}

/// A selection never holds more than its source.
pub proof fn lemma_subseq_len(sub: Seq<Seq<char>>, sup: Seq<Seq<char>>)
    requires
        is_subsequence(sub, sup),
    ensures
        sub.len() <= sup.len(),
    decreases sup.len(),
{
    if sub.len() > 0 {
        if sub[0] == sup[0] {
            lemma_subseq_len(sub.drop_first(), sup.drop_first());
        } else {
            lemma_subseq_len(sub, sup.drop_first());
        }
    }
}

/// The resolver's promise for one entry: whenever the substituted template
/// does not begin with a tilde, the output is exactly that template.
pub open spec fn resolution_pinned(
    template: Seq<char>,
    home: Option<Seq<char>>,
    out: Seq<char>,
) -> bool {
    (resolved_template(template, home).len() == 0 || resolved_template(template, home)[0] != '~')
        ==> out == resolved_template(template, home)
}

/// Resolves every declared dotfile, in order.
pub fn resolve_all(dotfiles: &Vec<Dotfile>, home_override: Option<&str>) -> (paths: Vec<String>)
    ensures
        paths@.len() == dotfiles@.len(),
        forall|j: int|
            0 <= j < dotfiles@.len() ==> resolution_pinned(
                dotfiles@[j].path@,
                opt_str_view(home_override),
                (#[trigger] paths@[j])@,
            ),
{
    let n = dotfiles.len();
    let mut paths: Vec<String> = Vec::new();
    let mut i: usize = 0;
    while i < n
        invariant
            n == dotfiles@.len(),
            i <= n,
            paths@.len() == i,
            forall|j: int|
                0 <= j < i ==> resolution_pinned(
                    dotfiles@[j].path@,
                    opt_str_view(home_override),
                    (#[trigger] paths@[j])@,
                ),
        decreases n - i,
    {
        let p = resolve(dotfiles[i].path.as_str(), home_override);
        paths.push(p);
        i = i + 1;
    }
    paths
}

/// The paths whose flag is set, in order.
pub open spec fn selected(paths: Seq<Seq<char>>, flags: Seq<bool>) -> Seq<Seq<char>>
    decreases paths.len(),
{
    if paths.len() == 0 || flags.len() == 0 {
        Seq::empty()
    } else if flags[0] {
        seq![paths[0]] + selected(paths.drop_first(), flags.drop_first())
    } else {
        selected(paths.drop_first(), flags.drop_first())
    }
}

/// Keeps, in order, exactly the paths whose flag is set: nothing flagged
/// is dropped, nothing unflagged slips in.
pub fn keep_flagged(paths: &Vec<String>, flags: &Vec<bool>) -> (kept: Vec<String>)
    requires
        flags@.len() == paths@.len(),
    ensures
        views_of(kept@) == selected(views_of(paths@), flags@),
        is_subsequence(views_of(kept@), views_of(paths@)),
{
    let n = paths.len();
    let mut kept: Vec<String> = Vec::new();
    let mut i: usize = 0;
    proof {
        assert(views_of(paths@).skip(0) =~= views_of(paths@));
        assert(flags@.skip(0) =~= flags@);
        assert(views_of(kept@) + selected(views_of(paths@), flags@) =~= selected(
            views_of(paths@),
            flags@,
        ));
    }
    while i < n
        invariant
            n == paths@.len(),
            flags@.len() == n,
            i <= n,
            selected(views_of(paths@), flags@) == views_of(kept@) + selected(
                views_of(paths@).skip(i as int),
                flags@.skip(i as int),
            ),
            is_subsequence(views_of(kept@), views_of(paths@).take(i as int)),
        decreases n - i,
    {
        let ghost pre = kept@;
        let ghost pv = views_of(paths@);
        if flags[i] {
            kept.push(paths[i].clone());
        }
        proof {
            let tailp = pv.skip(i as int);
            let tailf = flags@.skip(i as int);
            assert(tailp[0] == pv[i as int]);
            assert(tailf[0] == flags@[i as int]);
            assert(tailp.drop_first() =~= pv.skip(i + 1));
            assert(tailf.drop_first() =~= flags@.skip(i + 1));
            assert(pv.take(i + 1) =~= pv.take(i as int).push(pv[i as int]));
            if flags@[i as int] {
                assert(selected(tailp, tailf) == seq![pv[i as int]] + selected(
                    pv.skip(i + 1),
                    flags@.skip(i + 1),
                ));
                assert(views_of(kept@) =~= views_of(pre).push(pv[i as int]));
                assert(views_of(pre) + (seq![pv[i as int]] + selected(
                    pv.skip(i + 1),
                    flags@.skip(i + 1),
                )) =~= views_of(kept@) + selected(pv.skip(i + 1), flags@.skip(i + 1)));
                lemma_subseq_push_both(views_of(pre), pv.take(i as int), pv[i as int]);
            } else {
                assert(selected(tailp, tailf) == selected(pv.skip(i + 1), flags@.skip(i + 1)));
                lemma_subseq_push_sup(views_of(kept@), pv.take(i as int), pv[i as int]);
            }
        }
        i = i + 1;
    }
    proof {
        assert(views_of(paths@).skip(n as int).len() == 0);
        assert(selected(views_of(paths@).skip(n as int), flags@.skip(n as int))
            =~= Seq::<Seq<char>>::empty());
        assert(views_of(kept@) + Seq::<Seq<char>>::empty() =~= views_of(kept@));
        assert(views_of(paths@).take(n as int) =~= views_of(paths@));
    }
    kept
}

/// What the existence filter promises: under some per-path flag
/// assignment — the disk's answers at call time — the result keeps, in
/// order, exactly the flagged paths.
pub open spec fn filtered_post(paths: Seq<Seq<char>>, found: Seq<Seq<char>>) -> bool {
    exists|flags: Seq<bool>| flags.len() == paths.len() && found == #[trigger] selected(
        paths,
        flags,
    )
}

/// Keeps, in order, the paths that exist on disk: each path is probed
/// once, and the probe's answers drive `keep_flagged`.
pub fn filter_existing(paths: &Vec<String>) -> (found: Vec<String>)
    ensures
        filtered_post(views_of(paths@), views_of(found@)),
        is_subsequence(views_of(found@), views_of(paths@)),
{
    let n = paths.len();
    let mut flags: Vec<bool> = Vec::new();
    let mut i: usize = 0;
    while i < n
        invariant
            n == paths@.len(),
            i <= n,
            flags@.len() == i,
        decreases n - i,
    {
        flags.push(path_exists(paths[i].as_str()));
        i = i + 1;
    }
    let found = keep_flagged(paths, &flags);
    proof {
        assert(views_of(found@) == selected(views_of(paths@), flags@));
    }
    found
}

/// What discovery promises: some per-entry resolution exists, pinned to
/// the resolver's output wherever tilde expansion has no say, and the
/// paths found are exactly the resolutions kept under some per-entry flag
/// assignment — the existence probe's answers — in declaration order.
pub open spec fn discovery_post(
    specs: Seq<Dotfile>,
    home: Option<Seq<char>>,
    found: Seq<Seq<char>>,
) -> bool {
    exists|resolved: Seq<Seq<char>>, flags: Seq<bool>|
        {
            &&& resolved.len() == specs.len()
            &&& flags.len() == specs.len()
            &&& (forall|j: int|
                0 <= j < specs.len() ==> resolution_pinned(
                    (#[trigger] specs[j]).path@,
                    home,
                    resolved[j],
                ))
            &&& found == #[trigger] selected(resolved, flags)
            &&& is_subsequence(found, resolved)
        }
}

/// Discovers the declared dotfiles that exist on disk, in declaration
/// order; a path that does not exist is left out, never an error.
pub fn find_dotfiles(dotfiles: &Vec<Dotfile>, home_override: Option<&str>) -> (found: Vec<String>)
    ensures
        discovery_post(dotfiles@, opt_str_view(home_override), views_of(found@)),
{
    let paths = resolve_all(dotfiles, home_override);
    let found = filter_existing(&paths);
    proof {
        let resolved = views_of(paths@);
        assert(resolved.len() == dotfiles@.len());
        assert forall|j: int| 0 <= j < dotfiles@.len() implies resolution_pinned(
            (#[trigger] dotfiles@[j]).path@,
            opt_str_view(home_override),
            resolved[j],
        ) by {
            assert(resolved[j] == paths@[j]@);
        }
        let flags = choose|flags: Seq<bool>|
            flags.len() == resolved.len() && views_of(found@) == #[trigger] selected(
                resolved,
                flags,
            );
        assert(views_of(found@) == selected(resolved, flags));
        assert(is_subsequence(views_of(found@), resolved));
    }
    found
}

} // verus!
