//! The path resolver: substitution of the home placeholder in a declared
//! path template, tilde expansion, and the small path algebra (joining and
//! base names) that link placement builds on.

use vstd::prelude::*;
use vstd::string::*;

use crate::fs_probe::expand_tilde;
use crate::text::{
    first_occurrence, lemma_first_occurrence, lemma_first_occurrence_is,
    lemma_first_occurrence_none,
};

verus! {

/// `s` with every occurrence of `pat` replaced by `rep`, scanning left to
/// right and never rescanning what a replacement produced.
pub open spec fn replace_all(s: Seq<char>, pat: Seq<char>, rep: Seq<char>) -> Seq<char>
    decreases s.len(),
{
    if pat.len() == 0 || s.len() < pat.len() {
        s
    } else if s.subrange(0, pat.len() as int) == pat {
        rep + replace_all(s.skip(pat.len() as int), pat, rep)
    } else {
        seq![s[0]] + replace_all(s.skip(1), pat, rep)
    }
}

/// Whether `pat` stands verbatim at position `i` of `s`.
fn matches_plain_at(s: &str, pat: &str, i: usize, n: usize, m: usize) -> (b: bool)
    requires
        n == s@.len(),
        m == pat@.len(),
        i + m <= n,
    ensures
        b == (s@.subrange(i as int, i + m) == pat@),
{
    let mut j: usize = 0;
    while j < m
        invariant
            n == s@.len(),
            m == pat@.len(),
            i + m <= n,
            j <= m,
            forall|jj: int| 0 <= jj < j ==> s@[i + jj] == pat@[jj],
        decreases m - j,
    {
        if s.get_char(i + j) != pat.get_char(j) {
            assert(s@.subrange(i as int, i + m)[j as int] != pat@[j as int]);
            return false;
        }
        j = j + 1;
    }
    proof {
        assert(s@.subrange(i as int, i + m) =~= pat@);
    }
    true
}

/// Replaces every home placeholder in `template` by `home`.
pub fn replace_home(template: &str, home: &str) -> (r: String)
    ensures
        r@ == replace_all(template@, "${HOME}"@, home@),
{
    let pat = "${HOME}";
    proof {
        reveal_strlit("${HOME}");
    }
    let pl = pat.unicode_len();
    let n = template.unicode_len();
    let mut r = String::new();
    let mut i: usize = 0;
    proof {
        assert(template@.skip(0) =~= template@);
        assert(r@ + replace_all(template@, "${HOME}"@, home@) =~= replace_all(
            template@,
            "${HOME}"@,
            home@,
        ));
    }
    while i < n
        invariant
            n == template@.len(),
            pl == "${HOME}"@.len(),
            pat@ == "${HOME}"@,
            pl > 0,
            i <= n,
            replace_all(template@, "${HOME}"@, home@) == r@ + replace_all(
                template@.skip(i as int),
                "${HOME}"@,
                home@,
            ),
        decreases n - i,
    {
        let ghost tail = template@.skip(i as int);
        if n - i >= pl && matches_plain_at(template, pat, i, n, pl) {
            r.append(home);
            proof {
                assert(tail.subrange(0, pl as int) =~= template@.subrange(i as int, i + pl));
                assert(replace_all(tail, "${HOME}"@, home@) == home@ + replace_all(
                    tail.skip(pl as int),
                    "${HOME}"@,
                    home@,
                ));
                assert(tail.skip(pl as int) =~= template@.skip(i + pl));
            }
            i = i + pl;
        } else {
            let ch = template.substring_char(i, i + 1);
            r.append(ch);
            proof {
                assert(tail[0] == template@[i as int]);
                assert(seq![tail[0]] =~= template@.subrange(i as int, i + 1));
                if tail.len() < pl {
                    assert(replace_all(tail, "${HOME}"@, home@) == tail);
                    assert(replace_all(tail.skip(1), "${HOME}"@, home@) == tail.skip(1));
                    assert(tail =~= seq![tail[0]] + tail.skip(1));
                } else {
                    assert(tail.subrange(0, pl as int) =~= template@.subrange(i as int, i + pl));
                    assert(tail.subrange(0, pl as int) != "${HOME}"@);
                    assert(replace_all(tail, "${HOME}"@, home@) == seq![tail[0]] + replace_all(
                        tail.skip(1),
                        "${HOME}"@,
                        home@,
                    ));
                }
                assert(tail.skip(1) =~= template@.skip(i + 1));
            }
            i = i + 1;
        }
    }
    proof {
        assert(template@.skip(n as int).len() == 0);
        assert(replace_all(template@.skip(n as int), "${HOME}"@, home@) =~= Seq::<char>::empty());
        assert(r@ + Seq::<char>::empty() =~= r@);
    }
    r
}

/// The view of an optional borrowed string.
pub open spec fn opt_str_view(o: Option<&str>) -> Option<Seq<char>> {
    match o {
        Option::Some(s) => Option::Some(s@),
        Option::None => Option::None,
    }
}

/// The declared template with every home placeholder substituted: by the
/// override when one is given, else by the tilde sentinel.
pub open spec fn resolved_template(template: Seq<char>, home: Option<Seq<char>>) -> Seq<char> {
    replace_all(
        template,
        "${HOME}"@,
        match home {
            Option::Some(h) => h,
            Option::None => "~"@,
        },
    )
}

/// Resolves a dotfile path template: substitutes the home placeholder,
/// then applies tilde expansion. Tilde expansion reads the environment, so
/// the result is pinned exactly whenever the substituted template does not
/// begin with a tilde.
pub fn resolve(template: &str, home_override: Option<&str>) -> (r: String)
    ensures
        ({
            let sub = resolved_template(template@, opt_str_view(home_override));
            (sub.len() == 0 || sub[0] != '~') ==> r@ == sub
        }),
{
    let home: &str = match home_override {
        Option::Some(h) => h,
        Option::None => "~",
    };
    let substituted = replace_home(template, home);
    expand_tilde(substituted.as_str())
}

/// The base name of a path: everything after its last '/', or the whole
/// path when it holds none.
pub open spec fn base_name(s: Seq<char>) -> Seq<char>
    decreases s.len(),
    via base_name_decreases
{
    if s.len() == 0 {
        s
    } else {
        let i = first_occurrence(s, '/');
        if i >= s.len() {
            s
        } else {
            base_name(s.subrange(i + 1, s.len() as int))
        }
    }
}

#[via_fn]
proof fn base_name_decreases(s: Seq<char>) {
    lemma_first_occurrence(s, '/');
}

/// Computes the base name of a path.
pub fn base_name_of(path: &str) -> (r: String)
    ensures
        r@ == base_name(path@),
{
    let n = path.unicode_len();
    let mut seg: usize = 0;
    let mut i: usize = 0;
    proof {
        assert(path@.subrange(0, n as int) =~= path@);
    }
    while i < n
        invariant
            n == path@.len(),
            seg <= i <= n,
            forall|j: int| seg <= j < i ==> path@[j] != '/',
            base_name(path@) == base_name(path@.subrange(seg as int, n as int)),
        decreases n - i,
    {
        if path.get_char(i) == '/' {
            proof {
                let tail = path@.subrange(seg as int, n as int);
                assert(tail[i - seg] == path@[i as int]);
                assert forall|j: int| 0 <= j < i - seg implies tail[j] != '/' by {
                    assert(tail[j] == path@[seg + j]);
                }
                lemma_first_occurrence_is(tail, '/', i - seg);
                assert(tail.subrange(i - seg + 1, tail.len() as int) =~= path@.subrange(
                    i + 1,
                    n as int,
                ));
            }
            seg = i + 1;
        }
        i = i + 1;
    }
    let r = path.substring_char(seg, n).to_owned();
    proof {
        let tail = path@.subrange(seg as int, n as int);
        if tail.len() > 0 {
            assert forall|j: int| 0 <= j < tail.len() implies tail[j] != '/' by {
                assert(tail[j] == path@[seg + j]);
            }
            lemma_first_occurrence_none(tail, '/');
        }
    }
    r
}

/// `dir` and `name` joined with one separator.
pub open spec fn joined(dir: Seq<char>, name: Seq<char>) -> Seq<char> {
    dir + "/"@ + name
}

/// Joins a directory and an entry name with one separator.
pub fn join_path(dir: &str, name: &str) -> (r: String)
    ensures
        r@ == joined(dir@, name@),
{
    let mut r = dir.to_owned();
    r.append("/");
    r.append(name);
    r
}

} // verus!
