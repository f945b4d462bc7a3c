//! The fixed provisioning layout.
//!
//! Provisioning fetches the interpreter's source from its canonical
//! location into one fixed working directory and builds it there; the
//! executable then sits at a fixed relative path inside the checkout.
//! The filesystem, network and build work is unverified I/O done by the
//! embedding program; this module pins down, in verified code, every
//! path and constant that work uses.

use vstd::prelude::*;

use crate::output::text_matches_at;

verus! {

/// The suffix that a fetchable source location carries after the
/// repository's name.
pub open spec fn git_suffix() -> Seq<char> {
    seq!['.', 'g', 'i', 't']
}

/// The segment of `s` after its last `'/'`: the whole of `s` when it has
/// no `'/'`, and empty when it ends with one.
pub open spec fn after_last_slash(s: Seq<char>) -> Seq<char>
    decreases s.len(),
{
    if s.len() == 0 {
        s
    } else if s.last() == '/' {
        Seq::empty()
    } else {
        after_last_slash(s.drop_last()).push(s.last())
    }
}

/// `s` with every occurrence of `.git` removed, left to right.
pub open spec fn without_git(s: Seq<char>) -> Seq<char>
    decreases s.len(),
{
    if s.len() < 4 {
        s
    } else if s.take(4) == git_suffix() {
        without_git(s.skip(4))
    } else {
        seq![s[0]] + without_git(s.skip(1))
    }
}

/// Where a checkout fetched from `url` lands: the repository's name --
/// the location's last segment without its `.git` suffix -- inside the
/// working directory.
pub open spec fn clone_dest_spec(url: Seq<char>) -> Seq<char> {
    "./ml-api/"@ + without_git(after_last_slash(url))
}

/// The canonical location of the interpreter's source.
pub open spec fn source_url_spec() -> Seq<char> {
    "https://github.com/ThatOneToast/Maths-Lang.git"@
}

/// The working directory that provisioning owns exclusively.
pub open spec fn work_dir_spec() -> Seq<char> {
    "./ml-api"@
}

/// Where the provisioned interpreter executable ends up: a fixed relative
/// layout inside the checkout, `<checkout>/target/debug/<binary-name>`.
pub open spec fn exe_path_spec() -> Seq<char> {
    "./ml-api/Maths-Lang/target/debug/Maths"@
}

/// The fixed first argument that selects the interpreter's interactive
/// (interpret) mode.
pub open spec fn interp_mode_arg_spec() -> Seq<char> {
    "interp"@
}

/// The canonical location the interpreter's source is fetched from.
pub fn source_url() -> (u: &'static str)
    ensures
        u@ == source_url_spec(),
{
    "https://github.com/ThatOneToast/Maths-Lang.git"
}

/// The working directory that is removed and recreated on each provisioning.
pub fn work_dir() -> (d: &'static str)
    ensures
        d@ == work_dir_spec(),
{
    "./ml-api"
}

/// The first argument handed to the interpreter executable.
pub fn interp_mode_arg() -> (a: &'static str)
    ensures
        a@ == interp_mode_arg_spec(),
{
    "interp"
}

/// Resolves the path of the interpreter executable inside the provisioned
/// checkout.  Provisioning itself (removing the working directory, fetching
/// the source, building it) is unverified I/O performed by the embedding
/// program before this path is of any use.
pub fn build_return_executable() -> (p: String)
    ensures
        p@ == exe_path_spec(),
{
    String::from_str("./ml-api/Maths-Lang/target/debug/Maths")
}

/// `after_last_slash` is the suffix from any index that stands right
/// after a `'/'`, or from the start, with no `'/'` at or after it.
proof fn lemma_after_last_slash_at(s: Seq<char>, k: int)
    requires
        0 <= k <= s.len(),
        forall|i: int| k <= i < s.len() ==> s[i] != '/',
        k == 0 || s[k - 1] == '/',
    ensures
        after_last_slash(s) == s.subrange(k, s.len() as int),
    decreases s.len(),
{
    if s.len() == 0 {
        assert(s.subrange(0, 0) =~= s);
    } else if s.last() == '/' {
        assert(k == s.len());
        assert(s.subrange(k, s.len() as int) =~= Seq::<char>::empty());
    } else {
        assert(k < s.len());
        let head = s.drop_last();
        assert forall|i: int| k <= i < head.len() implies head[i] != '/' by {
            assert(head[i] == s[i]);
        }
        if k > 0 {
            assert(head[k - 1] == s[k - 1]);
        }
        lemma_after_last_slash_at(head, k);
        assert(head.subrange(k, head.len() as int).push(s.last()) =~= s.subrange(
            k,
            s.len() as int,
        ));
    }
}

/// Computes the directory a checkout fetched from `url` lands in: the
/// location's last segment, without `.git`, inside the working directory.
/// The fetch itself is unverified I/O done by the embedding program.
pub fn clone_destination(url: &str) -> (d: String)
    ensures
        d@ == clone_dest_spec(url@),
{
    let n = url.unicode_len();
    // Find where the last segment of the location starts.
    let mut start: usize = n;
    loop
        invariant
            0 <= start <= n,
            n == url@.len(),
            forall|k: int| start <= k < n ==> url@[k] != '/',
        ensures
            0 <= start <= n,
            forall|k: int| start <= k < n ==> url@[k] != '/',
            start == 0 || url@[start - 1] == '/',
        decreases start,
    {
        if start == 0 {
            break;
        }
        if url.get_char(start - 1) == '/' {
            break;
        }
        start -= 1;
    }
    proof {
        lemma_after_last_slash_at(url@, start as int);
        assert(url@.subrange(start as int, n as int) =~= url@.skip(start as int));
    }
    // Copy the segment, leaving out each occurrence of `.git`.
    let mut d = String::from_str("./ml-api/");
    let mut pos: usize = start;
    loop
        invariant
            start <= pos <= n,
            n == url@.len(),
            clone_dest_spec(url@) == d@ + without_git(url@.skip(pos as int)),
        decreases n - pos,
    {
        if pos == n {
            proof {
                assert(url@.skip(n as int) =~= Seq::<char>::empty());
                assert(d@ + Seq::<char>::empty() =~= d@);
            }
            return d;
        }
        let ghost suf = url@.skip(pos as int);
        if text_matches_at(url, pos, ".git") {
            proof {
                reveal_strlit(".git");
                assert(suf.take(4) =~= url@.subrange(pos as int, pos + 4));
                assert(suf.take(4) =~= git_suffix());
                assert(suf.skip(4) =~= url@.skip(pos + 4));
            }
            pos += 4;
        } else {
            proof {
                reveal_strlit(".git");
                if suf.len() >= 4 {
                    if suf.take(4) == git_suffix() {
                        assert(url@.subrange(pos as int, pos + 4) =~= suf.take(4));
                        assert(url@.subrange(pos as int, pos + 4) =~= ".git"@);
                    }
                    assert(without_git(suf) == seq![suf[0]] + without_git(suf.skip(1)));
                } else {
                    assert(without_git(suf) == suf);
                    assert(suf.skip(1).len() < 4);
                    assert(without_git(suf.skip(1)) == suf.skip(1));
                    assert(seq![suf[0]] + suf.skip(1) =~= suf);
                }
                assert(url@.subrange(pos as int, pos as int + 1) =~= seq![suf[0]]);
                assert(suf.skip(1) =~= url@.skip(pos as int + 1));
            }
            let c = url.substring_char(pos, pos + 1);
            d.append(c);
            proof {
                assert(d@ + without_git(url@.skip(pos as int + 1)) == clone_dest_spec(url@));
            }
            pos += 1;
        }
    }
}

} // verus!
