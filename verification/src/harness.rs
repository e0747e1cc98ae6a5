//! Naming and scaffolding for isolated scratch workspaces: each test case
//! runs in a uniquely named directory so parallel runs never share
//! mutable files. The directory operations themselves live with the
//! caller; the names, URIs and file contents are computed here.

use vstd::prelude::*;

use crate::numeral::{dec_string, spec_dec};

verus! {

/// `file://` URI of an absolute path.
pub open spec fn spec_file_uri(path: Seq<char>) -> Seq<char> {
    "file://"@ + path
}

/// Creates a file URI from a path.
pub fn file_uri(path: &str) -> (r: String)
    ensures
        r@ == spec_file_uri(path@),
{
    let mut out = String::from_str("file://");
    out.append(path);
    out
}

/// The directory of one workspace under a base directory.
pub open spec fn spec_workspace_dir(base: Seq<char>, name: Seq<char>) -> Seq<char> {
    base + "/"@ + name
}

/// Joins the base directory and the workspace name.
pub fn workspace_dir(base_dir: &str, name: &str) -> (r: String)
    ensures
        r@ == spec_workspace_dir(base_dir@, name@),
{
    let mut out = String::new();
    out.append(base_dir);
    out.append("/");
    out.append(name);
    assert(out@ =~= spec_workspace_dir(base_dir@, name@));
    out
}

/// A workspace name that no parallel run can collide with: the test name,
/// the process id and a run-local index.
pub open spec fn spec_unique_name(test: Seq<char>, pid: nat, index: nat) -> Seq<char> {
    test + "_"@ + spec_dec(pid) + "_"@ + spec_dec(index)
}

/// Builds the unique workspace name for one test case.
pub fn unique_workspace_name(test_name: &str, pid: u64, index: u64) -> (r: String)
    ensures
        r@ == spec_unique_name(test_name@, pid as nat, index as nat),
{
    let mut out = String::new();
    out.append(test_name);
    out.append("_");
    out.append(dec_string(pid).as_str());
    out.append("_");
    out.append(dec_string(index).as_str());
    assert(out@ =~= spec_unique_name(test_name@, pid as nat, index as nat));
    out
}

/// The minimal manifest a scratch workspace needs to look like a
/// compilable package.
pub open spec fn spec_manifest_text(name: Seq<char>) -> Seq<char> {
    "[package]\nname = \""@ + name + "\"\nversion = \"0.1.0\"\nedition = \"2021\"\n"@
}

/// Renders the scratch workspace's manifest.
pub fn manifest_text(name: &str) -> (r: String)
    ensures
        r@ == spec_manifest_text(name@),
{
    let mut out = String::from_str("[package]\nname = \"");
    out.append(name);
    out.append("\"\nversion = \"0.1.0\"\nedition = \"2021\"\n");
    assert(out@ =~= spec_manifest_text(name@));
    out
}

/// Puts a new entry in front of a search-path list, keeping the rest in
/// order.
pub fn prepend_path(paths: Vec<String>, new_path: String) -> (r: Vec<String>)
    ensures
        r@ =~= seq![new_path] + paths@,
{
    let mut out: Vec<String> = Vec::new();
    out.push(new_path);
    let mut rest = paths;
    while rest.len() > 0
        invariant
            rest@.len() <= paths@.len(),
            out@ =~= seq![new_path] + paths@.take(paths@.len() - rest@.len()),
            rest@ =~= paths@.skip(paths@.len() - rest@.len()),
        decreases rest@.len(),
    {
        let ghost before = rest@;
        let ghost k = paths@.len() - before.len();
        let x = rest.remove(0);
        proof {
            assert(rest@ =~= before.drop_first());
            assert(x == before.first());
            assert(before.first() == paths@[k]);
        }
        out.push(x);
        proof {
            assert(paths@.take(k + 1) =~= paths@.take(k).push(paths@[k]));
            assert(out@ =~= seq![new_path] + paths@.take(k + 1));
            assert(rest@ =~= paths@.skip(k + 1));
        }
    }
    assert(paths@.take(paths@.len() as int) =~= paths@);
    out
}

/// How many of the first `k` results passed.
pub open spec fn spec_count_passed(s: Seq<crate::matching::TestResult>, k: int) -> int
    decreases k,
{
    if k <= 0 {
        0
    } else {
        spec_count_passed(s, k - 1) + if s[k - 1].passed {
            1int
        } else {
            0int
        }
    }
}

/// Counts how many results passed and how many failed.
pub fn summarize(results: &Vec<crate::matching::TestResult>) -> (r: (usize, usize))
    ensures
        r.0 == spec_count_passed(results@, results@.len() as int),
        r.0 + r.1 == results@.len(),
{
    let mut passed: usize = 0;
    let mut i: usize = 0;
    while i < results.len()
        invariant
            0 <= i <= results@.len(),
            passed <= i,
            passed == spec_count_passed(results@, i as int),
        decreases results@.len() - i,
    {
        if results[i].passed {
            passed = passed + 1;
        }
        i = i + 1;
    }
    (passed, results.len() - passed)
}

} // verus!
