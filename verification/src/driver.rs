//! Frontend Driver boundary: the exact command line handed to the external
//! schema front-end, and the status test that keeps a failed front-end's
//! output away from the wire decoder. Spawning the subprocess and plumbing its
//! streams is the surrounding program's job; what is decided here is
//! verified.

use vstd::prelude::*;

use crate::model::BackendError;

verus! {

/// The views of a list of strings.
pub open spec fn views_of(v: Seq<String>) -> Seq<Seq<char>> {
    v.map_values(|s: String| s@)
}

/// One `--import-path=` flag per import path, in order.
pub open spec fn import_flags(ps: Seq<Seq<char>>) -> Seq<Seq<char>> {
    ps.map_values(|p: Seq<char>| "--import-path="@ + p)
}

/// One `--src-prefix=` flag per source prefix, in order.
pub open spec fn prefix_flags(ps: Seq<Seq<char>>) -> Seq<Seq<char>> {
    ps.map_values(|p: Seq<char>| "--src-prefix="@ + p)
}

/// The front-end's command line for one invocation: the compile command
/// writing the request to its standard output, the optional standard-import
/// suppression, one flag per import path, one flag per source prefix, and
/// the schema files positionally, in order.
pub open spec fn frontend_args_view(
    no_standard_import: bool,
    import_paths: Seq<Seq<char>>,
    src_prefixes: Seq<Seq<char>>,
    files: Seq<Seq<char>>,
) -> Seq<Seq<char>> {
    seq!["compile"@, "-o"@, "-"@] + (if no_standard_import {
        seq!["--no-standard-import"@]
    } else {
        Seq::<Seq<char>>::empty()
    }) + import_flags(import_paths) + prefix_flags(src_prefixes) + files
}

fn flagged(prefix: &str, path: &String) -> (r: String)
    ensures
        r@ == prefix@ + path@,
{
    let mut s = String::from_str(prefix);
    s.append(path.as_str());
    s
}

fn copy_path(s: &String) -> (r: String)
    ensures
        r@ == s@,
{
    String::from_str(s.as_str())
}

/// Builds the exact argument list of `frontend_args_view` for the given
/// invocation.
#[verifier::loop_isolation(false)]
pub fn build_frontend_args(
    no_standard_import: bool,
    import_paths: &Vec<String>,
    src_prefixes: &Vec<String>,
    files: &Vec<String>,
) -> (args: Vec<String>)
    ensures
        views_of(args@) == frontend_args_view(
            no_standard_import,
            views_of(import_paths@),
            views_of(src_prefixes@),
            views_of(files@),
        ),
{
    let ghost iv = views_of(import_paths@);
    let ghost pv = views_of(src_prefixes@);
    let ghost fv = views_of(files@);
    let ghost head = seq!["compile"@, "-o"@, "-"@] + (if no_standard_import {
        seq!["--no-standard-import"@]
    } else {
        Seq::<Seq<char>>::empty()
    });
    let mut args: Vec<String> = Vec::new();
    args.push(String::from_str("compile"));
    args.push(String::from_str("-o"));
    args.push(String::from_str("-"));
    if no_standard_import {
        args.push(String::from_str("--no-standard-import"));
    }
    proof {
        assert(views_of(args@) =~= head);
    }
    let mut i: usize = 0;
    while i < import_paths.len()
        invariant
            i <= iv.len(),
            views_of(args@) =~= head + import_flags(iv.take(i as int)),
        decreases iv.len() - i,
    {
        let ghost a0 = args@;
        args.push(flagged("--import-path=", &import_paths[i]));
        proof {
            let cur = views_of(args@);
            let tgt = head + import_flags(iv.take(i + 1));
            assert(a0.len() == head.len() + i);
            assert forall|k: int| 0 <= k < cur.len() implies cur[k] == tgt[k] by {
                assert(args@[k] == if k < a0.len() {
                    a0[k]
                } else {
                    args@[a0.len() as int]
                });
                if 0 <= k < a0.len() {
                    assert(views_of(a0)[k] == a0[k]@);
                }
                if k >= head.len() && k < a0.len() {
                    assert(iv.take(i + 1)[k - head.len()] == iv.take(i as int)[k - head.len()]);
                }
                if k == a0.len() {
                    assert(iv.take(i + 1)[i as int] == iv[i as int]);
                    assert(cur[k] == "--import-path="@ + import_paths@[i as int]@);
                }
            }
            assert(cur =~= tgt);
        }
        i += 1;
    }
    let ghost head2 = head + import_flags(iv);
    proof {
        assert(iv.take(iv.len() as int) =~= iv);
        assert(views_of(args@) =~= head2);
    }
    let mut j: usize = 0;
    while j < src_prefixes.len()
        invariant
            j <= pv.len(),
            views_of(args@) =~= head2 + prefix_flags(pv.take(j as int)),
        decreases pv.len() - j,
    {
        let ghost a0 = args@;
        args.push(flagged("--src-prefix=", &src_prefixes[j]));
        proof {
            let cur = views_of(args@);
            let tgt = head2 + prefix_flags(pv.take(j + 1));
            assert(a0.len() == head2.len() + j);
            assert forall|k: int| 0 <= k < cur.len() implies cur[k] == tgt[k] by {
                assert(args@[k] == if k < a0.len() {
                    a0[k]
                } else {
                    args@[a0.len() as int]
                });
                if 0 <= k < a0.len() {
                    assert(views_of(a0)[k] == a0[k]@);
                }
                if k >= head2.len() && k < a0.len() {
                    assert(pv.take(j + 1)[k - head2.len()] == pv.take(j as int)[k - head2.len()]);
                }
                if k == a0.len() {
                    assert(pv.take(j + 1)[j as int] == pv[j as int]);
                    assert(cur[k] == "--src-prefix="@ + src_prefixes@[j as int]@);
                }
            }
            assert(cur =~= tgt);
        }
        j += 1;
    }
    let ghost head3 = head2 + prefix_flags(pv);
    proof {
        assert(pv.take(pv.len() as int) =~= pv);
        assert(views_of(args@) =~= head3);
    }
    let mut k: usize = 0;
    while k < files.len()
        invariant
            k <= fv.len(),
            views_of(args@) =~= head3 + fv.take(k as int),
        decreases fv.len() - k,
    {
        let ghost a0 = args@;
        args.push(copy_path(&files[k]));
        proof {
            let cur = views_of(args@);
            let tgt = head3 + fv.take(k + 1);
            assert(a0.len() == head3.len() + k);
            assert forall|q: int| 0 <= q < cur.len() implies cur[q] == tgt[q] by {
                assert(args@[q] == if q < a0.len() {
                    a0[q]
                } else {
                    args@[a0.len() as int]
                });
                if 0 <= q < a0.len() {
                    assert(views_of(a0)[q] == a0[q]@);
                }
                if q >= head3.len() && q < a0.len() {
                    assert(fv.take(k + 1)[q - head3.len()] == fv.take(k as int)[q - head3.len()]);
                }
                if q == a0.len() {
                    assert(fv.take(k + 1)[k as int] == fv[k as int]);
                    assert(cur[q] == files@[k as int]@);
                }
            }
            assert(cur =~= tgt);
        }
        k += 1;
    }
    proof {
        assert(fv.take(fv.len() as int) =~= fv);
        assert(views_of(args@) =~= head3 + fv);
    }
    args
}

/// The recovery decision for a failed read of the front-end's output
/// stream: a transient "interrupted" condition is retried transparently, the
/// only locally recovered failure; everything else is surfaced.
pub fn retry_read(interrupted: bool) -> (r: bool)
    ensures
        r <==> interrupted,
{
    interrupted
}

/// The test on the front-end's exit status: only a zero status lets its
/// output reach the wire decoder; any other status is surfaced as
/// `FrontendExit` with that status, and the bytes are never decoded.
pub fn check_frontend_status(code: i32) -> (r: Result<(), BackendError>)
    ensures
        r is Ok <==> code == 0,
        r matches Err(e) ==> e == BackendError::FrontendExit(code),
{
    if code == 0 {
        Ok(())
    } else {
        Err(BackendError::FrontendExit(code))
    }
}

} // verus!
