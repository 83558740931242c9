//! The TeX compile pipeline's own logic: where the Tectonic fallback binary
//! and bundle are looked for, the command line it is run with, and the
//! messages a failed or silent run is reported with. Running the process,
//! the worker thread and the temporary directory on disk belong to the
//! application.

use vstd::prelude::*;

use crate::collab::{prefixed, str_to_string};
use crate::editor::opt_view;
use crate::outline::views;
use crate::text::{str_trim, string_push};

verus! {

pub enum CompileRequest {
    Compile(String),
}

/// The outcome of a compile: the PDF bytes, or the error report.
pub enum CompileResult {
    Pdf(Vec<u8>),
    Error(String),
}

/// Environment variable naming the Tectonic binary to use.
pub const TECTONIC_BIN_ENV: &'static str = "FLUXTEX_TECTONIC_BIN";

/// Environment variable naming the Tectonic bundle to use.
pub const TECTONIC_BUNDLE_ENV: &'static str = "FLUXTEX_TECTONIC_BUNDLE";

/// The path `rel` joined onto `base` (`std::path::Path::join`).
pub uninterp spec fn joined_path(base: Seq<char>, rel: Seq<char>) -> Seq<char>;

/// `Path::join`, read back as text.
#[verifier::external_body]
pub(crate) fn path_join(base: &str, rel: &str) -> (r: String)
    ensures
        r@ == joined_path(base@, rel@),
{
    std::path::Path::new(base).join(rel).to_string_lossy().into_owned()
}

/// `Path::exists`: whether something is on disk at `path` right now.
/// Nothing is stated of the answer.
#[verifier::external_body]
fn path_exists(path: &str) -> (r: bool) {
    std::path::Path::new(path).exists()
}

/// The per-build working directory of a Tectonic run.
pub struct TempBuildDir(pub String);

impl TempBuildDir {
    /// The build directory for the run `id` under the temporary directory
    /// `temp_root`.
    pub fn at(temp_root: &str, id: &str) -> (d: Self)
        ensures
            d.0@ == joined_path(temp_root@, "fluxtex-tectonic-"@ + id@),
    {
        let name = prefixed("fluxtex-tectonic-", id);
        TempBuildDir(path_join(temp_root, name.as_str()))
    }

    pub fn path(&self) -> (p: &str)
        ensures
            p@ == self.0@,
    {
        self.0.as_str()
    }
}

/// A configured path: the value of its variable, when set and not empty.
pub fn configured_path(value: Option<String>) -> (r: Option<String>)
    ensures
        r == (match value {
            Some(v) => if v@.len() > 0 {
                Some(v)
            } else {
                None
            },
            None => None,
        }),
{
    match value {
        Some(v) => {
            if v.as_str().is_empty() {
                None
            } else {
                Some(v)
            }
        },
        None => None,
    }
}

/// The texts of a list of string slices.
pub open spec fn str_views(v: Seq<&str>) -> Seq<Seq<char>> {
    v.map_values(|s: &str| s@)
}

/// The paths `rels` joined onto `root`, in order.
pub open spec fn joined_all(root: Seq<char>, rels: Seq<Seq<char>>) -> Seq<Seq<char>> {
    rels.map_values(|p: Seq<char>| joined_path(root, p))
}

/// The first of `cands` (from position `i` on) whose flag is set.
pub open spec fn first_flagged(cands: Seq<Seq<char>>, flags: Seq<bool>, i: int) -> Option<
    Seq<char>,
>
    decreases cands.len() - i,
{
    if i < 0 || i >= cands.len() || i >= flags.len() {
        None
    } else if flags[i] {
        Some(cands[i])
    } else {
        first_flagged(cands, flags, i + 1)
    }
}

/// The first candidate whose flag in `exists` is set, in list order; none
/// when no flag is set.
pub fn first_existing(candidates: &Vec<String>, exists: &Vec<bool>) -> (r: Option<String>)
    ensures
        opt_view(r) == first_flagged(views(candidates@), exists@, 0),
{
    let mut i: usize = 0;
    while i < candidates.len() && i < exists.len()
        invariant
            i <= candidates@.len(),
            first_flagged(views(candidates@), exists@, i as int) == first_flagged(
                views(candidates@),
                exists@,
                0,
            ),
        decreases candidates@.len() - i,
    {
        if exists[i] {
            let r = candidates[i].clone();
            assert(views(candidates@)[i as int] == candidates@[i as int]@);
            return Some(r);
        }
        i += 1;
    }
    None
}

/// The first of the paths under the repository root that exists on disk,
/// in list order; none without a repository root. Every joined path is
/// looked up on disk, and which ones exist is up to the disk: the result
/// is the first candidate for some answer of the disk.
pub fn vendor_candidates(repo_root: Option<&str>, relative_paths: &Vec<&str>) -> (r: Option<
    String,
>)
    ensures
        match repo_root {
            None => r is None,
            Some(root) => exists|flags: Seq<bool>|
                flags.len() == relative_paths@.len() && opt_view(r) == #[trigger] first_flagged(
                    joined_all(root@, str_views(relative_paths@)),
                    flags,
                    0,
                ),
        },
{
    let root = match repo_root {
        Some(root) => root,
        None => {
            return None;
        },
    };
    let ghost rels = str_views(relative_paths@);
    let mut candidates: Vec<String> = Vec::new();
    let mut exists: Vec<bool> = Vec::new();
    let mut i: usize = 0;
    while i < relative_paths.len()
        invariant
            i <= relative_paths@.len(),
            rels == str_views(relative_paths@),
            candidates@.len() == i,
            exists@.len() == i,
            views(candidates@) == joined_all(root@, rels).take(i as int),
        decreases relative_paths@.len() - i,
    {
        let candidate = path_join(root, relative_paths[i]);
        let found = path_exists(candidate.as_str());
        let ghost before = candidates@;
        candidates.push(candidate);
        exists.push(found);
        proof {
            assert(views(candidates@) =~= views(before).push(candidates@.last()@));
            assert(joined_all(root@, rels).take(i + 1) =~= joined_all(root@, rels).take(
                i as int,
            ).push(joined_path(root@, rels[i as int])));
        }
        i += 1;
    }
    proof {
        assert(joined_all(root@, rels).take(i as int) =~= joined_all(root@, rels));
    }
    first_existing(&candidates, &exists)
}

/// The places under the repository root where a Tectonic binary is looked
/// for, in order.
pub open spec fn binary_candidates() -> Seq<Seq<char>> {
    seq!["vendor/tectonic/bin/tectonic"@, "vendor/tectonic/tectonic"@]
}

/// The places under the repository root where a Tectonic bundle is looked
/// for, in order.
pub open spec fn bundle_candidates() -> Seq<Seq<char>> {
    seq![
        "vendor/tectonic/bundles/default.zip"@,
        "vendor/tectonic/bundles/default.bundle"@,
        "vendor/tectonic/bundles/tectonic-default.bundle"@,
        "vendor/tectonic/default.bundle"@,
    ]
}

/// The Tectonic binary to run: the configured one (the value of
/// `FLUXTEX_TECTONIC_BIN`) if set, else the first vendored one that exists.
pub fn find_tectonic_binary(env_value: Option<String>, repo_root: Option<&str>) -> (r: Option<
    String,
>)
    ensures
        env_value matches Some(v) && v@.len() > 0 ==> r == env_value,
        !(env_value matches Some(v) && v@.len() > 0) ==> match repo_root {
            None => r is None,
            Some(root) => exists|flags: Seq<bool>|
                flags.len() == binary_candidates().len() && opt_view(r) == #[trigger] first_flagged(
                    joined_all(root@, binary_candidates()),
                    flags,
                    0,
                ),
        },
{
    match configured_path(env_value) {
        Some(p) => Some(p),
        None => {
            let mut candidates: Vec<&str> = Vec::new();
            candidates.push("vendor/tectonic/bin/tectonic");
            candidates.push("vendor/tectonic/tectonic");
            proof {
                reveal_strlit("vendor/tectonic/bin/tectonic");
                reveal_strlit("vendor/tectonic/tectonic");
                assert(str_views(candidates@) =~= binary_candidates());
            }
            vendor_candidates(repo_root, &candidates)
        },
    }
}

/// The Tectonic bundle to use: the configured one (the value of
/// `FLUXTEX_TECTONIC_BUNDLE`) if set, else the first vendored one that
/// exists.
pub fn find_tectonic_bundle(env_value: Option<String>, repo_root: Option<&str>) -> (r: Option<
    String,
>)
    ensures
        env_value matches Some(v) && v@.len() > 0 ==> r == env_value,
        !(env_value matches Some(v) && v@.len() > 0) ==> match repo_root {
            None => r is None,
            Some(root) => exists|flags: Seq<bool>|
                flags.len() == bundle_candidates().len() && opt_view(r) == #[trigger] first_flagged(
                    joined_all(root@, bundle_candidates()),
                    flags,
                    0,
                ),
        },
{
    match configured_path(env_value) {
        Some(p) => Some(p),
        None => {
            let mut candidates: Vec<&str> = Vec::new();
            candidates.push("vendor/tectonic/bundles/default.zip");
            candidates.push("vendor/tectonic/bundles/default.bundle");
            candidates.push("vendor/tectonic/bundles/tectonic-default.bundle");
            candidates.push("vendor/tectonic/default.bundle");
            proof {
                reveal_strlit("vendor/tectonic/bundles/default.zip");
                reveal_strlit("vendor/tectonic/bundles/default.bundle");
                reveal_strlit("vendor/tectonic/bundles/tectonic-default.bundle");
                reveal_strlit("vendor/tectonic/default.bundle");
                assert(str_views(candidates@) =~= bundle_candidates());
            }
            vendor_candidates(repo_root, &candidates)
        },
    }
}

/// The decimal digits of `n`.
pub open spec fn digits(n: nat) -> Seq<char>
    decreases n,
{
    if n < 10 {
        seq![(48 + n) as char]
    } else {
        digits(n / 10).push((48 + n % 10) as char)
    }
}

/// `i` in decimal, with a leading `-` when negative (as `{}` prints it).
pub open spec fn decimal(i: int) -> Seq<char> {
    if i < 0 {
        seq!['-'] + digits((-i) as nat)
    } else {
        digits(i as nat)
    }
}

pub(crate) fn push_digits(s: &mut String, n: u64)
    ensures
        final(s)@ == old(s)@ + digits(n as nat),
    decreases n,
{
    if n < 10 {
        string_push(s, ((48 + n) as u8) as char);
    } else {
        push_digits(s, n / 10);
        string_push(s, ((48 + n % 10) as u8) as char);
        assert(final(s)@ =~= old(s)@ + digits(n as nat));
    }
}

/// `i` in decimal.
pub fn decimal_string(i: i64) -> (r: String)
    requires
        i > i64::MIN,
    ensures
        r@ == decimal(i as int),
{
    let mut r = String::new();
    if i < 0 {
        string_push(&mut r, '-');
        push_digits(&mut r, (-i) as u64);
    } else {
        push_digits(&mut r, i as u64);
    }
    assert(r@ =~= decimal(i as int));
    r
}

/// The message for a Tectonic binary that could not be started: a hint
/// where to put one when it was not found, else the launch error.
pub fn format_launch_error(not_found: bool, err: &str) -> (r: String)
    ensures
        r@ == if not_found {
            "Tectonic CLI was not found.\n\nPlace a binary at `vendor/tectonic/bin/tectonic`, or set `"@
                + TECTONIC_BIN_ENV@ + "` to a Tectonic executable path."@
        } else {
            "Failed to launch Tectonic CLI: "@ + err@
        },
{
    if not_found {
        let mut r = str_to_string(
            "Tectonic CLI was not found.\n\nPlace a binary at `vendor/tectonic/bin/tectonic`, or set `",
        );
        r.append(TECTONIC_BIN_ENV);
        r.append("` to a Tectonic executable path.");
        r
    } else {
        prefixed("Failed to launch Tectonic CLI: ", err)
    }
}

/// The message for a Tectonic run that failed: how it ended (its exit
/// code, or a signal), then its diagnostics.
pub fn format_failed_run(exit_code: Option<i32>, diagnostics: &str) -> (r: String)
    ensures
        r@ == "Tectonic compilation failed ("@ + (match exit_code {
            Some(code) => "exit code "@ + decimal(code as int),
            None => "terminated by signal"@,
        }) + ").\n\n"@ + diagnostics@,
{
    let status = match exit_code {
        Some(code) => {
            let digits = decimal_string(code as i64);
            prefixed("exit code ", digits.as_str())
        },
        None => str_to_string("terminated by signal"),
    };
    let mut r = prefixed("Tectonic compilation failed (", status.as_str());
    r.append(").\n\n");
    r.append(diagnostics);
    r
}

/// The sections joined with blank lines between them.
pub open spec fn join_sections(ss: Seq<Seq<char>>) -> Seq<char>
    decreases ss.len(),
{
    if ss.len() == 0 {
        Seq::empty()
    } else if ss.len() == 1 {
        ss[0]
    } else {
        join_sections(ss.drop_last()) + "\n\n"@ + ss.last()
    }
}

/// The diagnostics of a run: its trimmed standard output, standard error
/// and log (each when not empty), under headings and separated by blank
/// lines; or, when there are none, a note saying so, with a hint to add a
/// bundle when none was found.
pub open spec fn output_text(
    stdout: Seq<char>,
    stderr: Seq<char>,
    log: Option<Seq<char>>,
    bundle_found: bool,
) -> Seq<char> {
    let out = crate::text::trim(stdout);
    let err = crate::text::trim(stderr);
    let sections = (if out.len() > 0 {
        seq!["stdout:\n"@ + out]
    } else {
        seq![]
    }) + (if err.len() > 0 {
        seq!["stderr:\n"@ + err]
    } else {
        seq![]
    }) + (match log {
        Some(l) => if crate::text::trim(l).len() > 0 {
            seq!["main.log:\n"@ + crate::text::trim(l)]
        } else {
            seq![]
        },
        None => seq![],
    });
    if sections.len() == 0 {
        "Tectonic did not produce any diagnostic output."@ + (if bundle_found {
            Seq::empty()
        } else {
            "\n\nTip: add a bundle at `vendor/tectonic/bundles/default.bundle` or set `"@
                + TECTONIC_BUNDLE_ENV@ + "`."@
        })
    } else {
        join_sections(sections)
    }
}

fn add_section(text: &mut String, count: &mut usize, heading: &str, body: &str)
    requires
        *old(count) < usize::MAX,
    ensures
        *final(count) == *old(count) + 1,
        final(text)@ == (if *old(count) == 0 {
            Seq::empty()
        } else {
            old(text)@ + "\n\n"@
        }) + heading@ + body@,
{
    if *count > 0 {
        text.append("\n\n");
    } else {
        *text = String::new();
    }
    text.append(heading);
    text.append(body);
    *count = *count + 1;
}

/// The diagnostics of a Tectonic run, from its standard output, standard
/// error, log file (if it could be read) and whether a bundle was found.
pub fn collect_output_text(stdout: &str, stderr: &str, log: Option<String>, bundle_found: bool) -> (r:
    String)
    ensures
        r@ == output_text(
            stdout@,
            stderr@,
            match log {
                Some(l) => Some(l@),
                None => None,
            },
            bundle_found,
        ),
{
    let out = str_trim(stdout);
    let err = str_trim(stderr);
    let mut text = String::new();
    let mut count: usize = 0;
    let ghost mut sections: Seq<Seq<char>> = seq![];
    if !out.is_empty() {
        add_section(&mut text, &mut count, "stdout:\n", out);
        proof {
            sections = sections.push("stdout:\n"@ + out@);
            assert(text@ =~= join_sections(sections));
        }
    }
    if !err.is_empty() {
        let ghost prev = text@;
        add_section(&mut text, &mut count, "stderr:\n", err);
        proof {
            let s0 = sections;
            sections = sections.push("stderr:\n"@ + err@);
            assert(sections.drop_last() =~= s0);
            assert(text@ =~= join_sections(sections));
        }
    }
    match &log {
        Some(l) => {
            let lt = str_trim(l.as_str());
            if !lt.is_empty() {
                add_section(&mut text, &mut count, "main.log:\n", lt);
                proof {
                    let s0 = sections;
                    sections = sections.push("main.log:\n"@ + lt@);
                    assert(sections.drop_last() =~= s0);
                    assert(text@ =~= join_sections(sections));
                }
            }
        },
        None => {},
    }
    proof {
        let spec_sections = (if out@.len() > 0 {
            seq!["stdout:\n"@ + out@]
        } else {
            seq![]
        }) + (if err@.len() > 0 {
            seq!["stderr:\n"@ + err@]
        } else {
            seq![]
        }) + (match log {
            Some(l) => if crate::text::trim(l@).len() > 0 {
                seq!["main.log:\n"@ + crate::text::trim(l@)]
            } else {
                seq![]
            },
            None => seq![],
        });
        assert(sections =~= spec_sections);
        assert(count == sections.len());
    }
    if count == 0 {
        let mut r = str_to_string("Tectonic did not produce any diagnostic output.");
        if !bundle_found {
            r.append("\n\nTip: add a bundle at `vendor/tectonic/bundles/default.bundle` or set `");
            r.append(TECTONIC_BUNDLE_ENV);
            r.append("`.");
        }
        r
    } else {
        text
    }
}

/// The message for a run that succeeded but left no PDF behind.
pub fn missing_pdf_message(pdf_path: &str, err: &str, diagnostics: &str) -> (r: String)
    ensures
        r@ == "Tectonic finished but `"@ + pdf_path@ + "` was missing: "@ + err@ + "\n\n"@
            + diagnostics@,
{
    let mut r = prefixed("Tectonic finished but `", pdf_path);
    r.append("` was missing: ");
    r.append(err);
    r.append("\n\n");
    r.append(diagnostics);
    r
}

/// The Tectonic command line for compiling `input_path` into `output_dir`,
/// keeping logs and intermediates, with the bundle when one is given.
pub fn tectonic_args(output_dir: &str, input_path: &str, bundle: Option<&str>) -> (args: Vec<
    String,
>)
    ensures
        args@.map_values(|a: String| a@) == seq![
            "-X"@,
            "compile"@,
            "--keep-logs"@,
            "--keep-intermediates"@,
            "--outdir"@,
            output_dir@,
            input_path@,
        ] + match bundle {
            Some(b) => seq!["--bundle"@, b@],
            None => seq![],
        },
{
    let mut args: Vec<String> = Vec::new();
    args.push(str_to_string("-X"));
    args.push(str_to_string("compile"));
    args.push(str_to_string("--keep-logs"));
    args.push(str_to_string("--keep-intermediates"));
    args.push(str_to_string("--outdir"));
    args.push(str_to_string(output_dir));
    args.push(str_to_string(input_path));
    match bundle {
        Some(b) => {
            args.push(str_to_string("--bundle"));
            args.push(str_to_string(b));
        },
        None => {},
    }
    assert(args@.map_values(|a: String| a@) =~= seq![
        "-X"@,
        "compile"@,
        "--keep-logs"@,
        "--keep-intermediates"@,
        "--outdir"@,
        output_dir@,
        input_path@,
    ] + match bundle {
        Some(b) => seq!["--bundle"@, b@],
        None => seq![],
    });
    args
}


/// With no binary configured and a repository root, the binary lookup
/// tries `vendor/tectonic/bin/tectonic` under the root first, then
/// `vendor/tectonic/tectonic`: for any answer of the disk about the two
/// (`on_disk[k]` telling whether the `k`-th exists), the result is the
/// first of them that exists, or none.
pub proof fn lemma_binary_lookup_order(root: Seq<char>, on_disk: Seq<bool>)
    requires
        on_disk.len() == 2,
    ensures
        first_flagged(joined_all(root, binary_candidates()), on_disk, 0) == if on_disk[0] {
            Some(joined_path(root, "vendor/tectonic/bin/tectonic"@))
        } else if on_disk[1] {
            Some(joined_path(root, "vendor/tectonic/tectonic"@))
        } else {
            None
        },
{
    let c = joined_all(root, binary_candidates());
    assert(c.len() == 2);
    assert(c[0] == joined_path(root, "vendor/tectonic/bin/tectonic"@));
    assert(c[1] == joined_path(root, "vendor/tectonic/tectonic"@));
    assert(first_flagged(c, on_disk, 2) is None);
    assert(first_flagged(c, on_disk, 1) == (if on_disk[1] { Some(c[1]) } else { None }));
    assert(first_flagged(c, on_disk, 0) == (if on_disk[0] { Some(c[0]) } else { first_flagged(c, on_disk, 1) }));
}

/// With no bundle configured and a repository root, the bundle lookup
/// tries, under the root, `vendor/tectonic/bundles/default.zip`, then
/// `vendor/tectonic/bundles/default.bundle`, then
/// `vendor/tectonic/bundles/tectonic-default.bundle`, then
/// `vendor/tectonic/default.bundle`: for any answer of the disk about the
/// four, the result is the first of them that exists, or none.
pub proof fn lemma_bundle_lookup_order(root: Seq<char>, on_disk: Seq<bool>)
    requires
        on_disk.len() == 4,
    ensures
        first_flagged(joined_all(root, bundle_candidates()), on_disk, 0) == if on_disk[0] {
            Some(joined_path(root, "vendor/tectonic/bundles/default.zip"@))
        } else if on_disk[1] {
            Some(joined_path(root, "vendor/tectonic/bundles/default.bundle"@))
        } else if on_disk[2] {
            Some(joined_path(root, "vendor/tectonic/bundles/tectonic-default.bundle"@))
        } else if on_disk[3] {
            Some(joined_path(root, "vendor/tectonic/default.bundle"@))
        } else {
            None
        },
{
    let c = joined_all(root, bundle_candidates());
    assert(c.len() == 4);
    assert(c[0] == joined_path(root, "vendor/tectonic/bundles/default.zip"@));
    assert(c[1] == joined_path(root, "vendor/tectonic/bundles/default.bundle"@));
    assert(c[2] == joined_path(root, "vendor/tectonic/bundles/tectonic-default.bundle"@));
    assert(c[3] == joined_path(root, "vendor/tectonic/default.bundle"@));
    assert(first_flagged(c, on_disk, 4) is None);
    assert(first_flagged(c, on_disk, 3) == (if on_disk[3] { Some(c[3]) } else { None }));
    assert(first_flagged(c, on_disk, 2) == (if on_disk[2] { Some(c[2]) } else { first_flagged(c, on_disk, 3) }));
    assert(first_flagged(c, on_disk, 1) == (if on_disk[1] { Some(c[1]) } else { first_flagged(c, on_disk, 2) }));
    assert(first_flagged(c, on_disk, 0) == (if on_disk[0] { Some(c[0]) } else { first_flagged(c, on_disk, 1) }));
}

} // verus!
