//! Versions of packages in a lock file.
use crate::lines::{line_count, line_of, line_text, lines_in};
use crate::text::{concat, list_holds, same, strip_prefix, views};
use vstd::prelude::*;
use vstd::string::*;

verus! {

/// What has been read of a lock file.
#[verifier::ext_equal]
pub struct LockScan {
    pub versions: Seq<Seq<char>>,
    /// The last package that was named is the one that is looked for, and its
    /// version has not been read.
    pub in_package: bool,
}

/// The text without the quotes at its end.
pub open spec fn without_quotes(text: Seq<char>) -> Seq<char>
    decreases text.len(),
{
    if text.len() > 0 && text.last() == '"' {
        without_quotes(text.drop_last())
    } else {
        text
    }
}

/// What is known after one more line.
pub open spec fn scan_line(scan: LockScan, line: Seq<char>, package: Seq<char>) -> LockScan {
    if line == "[[package]]"@ {
        LockScan { in_package: false, ..scan }
    } else if line == "name = \""@ + package + "\""@ {
        LockScan { in_package: true, ..scan }
    } else if scan.in_package && "version = \""@.is_prefix_of(line) {
        let version = without_quotes(line.skip("version = \""@.len() as int));
        LockScan {
            versions: if scan.versions.contains(version) {
                scan.versions
            } else {
                scan.versions.push(version)
            },
            in_package: false,
        }
    } else {
        scan
    }
}

/// What is known after the first lines.
pub open spec fn scan_until(lock: Seq<char>, package: Seq<char>, n: nat) -> LockScan
    decreases n,
{
    if n == 0 {
        LockScan { versions: Seq::empty(), in_package: false }
    } else {
        scan_line(
            scan_until(lock, package, (n - 1) as nat),
            line_text(lock, n - 1),
            package,
        )
    }
}

fn strip_quotes(text: &str) -> (r: String)
    ensures
        r@ == without_quotes(text@),
{
    let all = crate::text::chars_of(text);
    let mut to: usize = all.len();
    assert(all@.subrange(0, to as int) =~= all@);
    while to > 0 && all[to - 1] == '"'
        invariant
            to <= all@.len(),
            without_quotes(all@) == without_quotes(all@.subrange(0, to as int)),
        decreases to,
    {
        assert(all@.subrange(0, to as int).drop_last() =~= all@.subrange(0, to - 1));
        to -= 1;
    }
    crate::text::text_between(&all, 0, to)
}

/// The versions at which a lock file holds a package, each once, in order.
pub fn locked_versions(lock: &str, package: &str) -> (r: Vec<String>)
    ensures
        views(r@) == scan_until(lock@, package@, line_count(lock@)).versions,
{
    let mut versions: Vec<String> = Vec::new();
    let mut in_package = false;
    let mut name = concat("name = \"", package);
    name.append("\"");
    let total: usize = lines_in(lock);
    let mut i: usize = 0;
    assert(views(versions@) =~= Seq::<Seq<char>>::empty());
    while i < total
        invariant
            i <= total == line_count(lock@),
            name@ == "name = \""@ + package@ + "\""@,
            scan_until(lock@, package@, i as nat) == (LockScan {
                versions: views(versions@),
                in_package,
            }),
        decreases total - i,
    {
        let ghost before = versions@;
        if let Some(line) = line_of(lock, i) {
            if same(line.as_str(), "[[package]]") {
                in_package = false;
            } else if same(line.as_str(), name.as_str()) {
                in_package = true;
            } else if in_package {
                if let Some(rest) = strip_prefix(line.as_str(), "version = \"") {
                    let version = strip_quotes(rest.as_str());
                    if !list_holds(&versions, version.as_str()) {
                        versions.push(version);
                        assert(views(versions@) =~= views(before).push(version@));
                    }
                    in_package = false;
                }
            }
        }
        i += 1;
    }
    versions
}

/// The version that is reported: all that were found, since a scan cannot tell which
/// of several is linked.
pub fn reported_version(versions: &Vec<String>) -> (r: String)
    ensures
        r@ == if versions@.len() == 0 {
            "unknown"@
        } else {
            crate::text::joined(views(versions@), "+"@)
        },
{
    if versions.len() == 0 {
        "unknown".to_owned()
    } else {
        crate::text::join(versions, "+")
    }
}

/// No version is reported twice.
pub proof fn versions_are_reported_once(lock: Seq<char>, package: Seq<char>, n: nat)
    ensures
        forall|i: int, j: int|
            0 <= i < j < scan_until(lock, package, n).versions.len() ==> #[trigger] scan_until(
                lock,
                package,
                n,
            ).versions[i] != #[trigger] scan_until(lock, package, n).versions[j],
    decreases n,
{
    if n > 0 {
        versions_are_reported_once(lock, package, (n - 1) as nat);
        let before = scan_until(lock, package, (n - 1) as nat).versions;
        let after = scan_until(lock, package, n).versions;
        assert forall|i: int, j: int| 0 <= i < j < after.len() implies #[trigger] after[i]
            != #[trigger] after[j] by {
            if j < before.len() {
                assert(before[i] != before[j]);
            } else if after[i] == after[j] {
                assert(before[i] == after[j]);
            }
        }
    }
}

/// A version counts only behind the name of its package, before another package begins and
/// before another version: a line outside the package changes nothing, a line of the package
/// adds at most one version, and the versions that were read stay.
pub proof fn versions_count_for_their_package(scan: LockScan, line: Seq<char>, package: Seq<char>)
    ensures
        !scan.in_package ==> scan_line(scan, line, package).versions == scan.versions,
        line == "[[package]]"@ ==> !scan_line(scan, line, package).in_package,
        scan_line(scan, line, package).in_package && !scan.in_package ==> line == "name = \""@
            + package + "\""@,
        scan_line(scan, line, package).versions != scan.versions ==> !scan_line(
            scan,
            line,
            package,
        ).in_package && scan_line(scan, line, package).versions.drop_last() == scan.versions,
{
    let after = scan_line(scan, line, package).versions;
    if after != scan.versions {
        assert(after.drop_last() =~= scan.versions);
    }
}

/// The quotes that end a version are not part of it.
pub proof fn closing_quotes_are_dropped(text: Seq<char>)
    ensures
        without_quotes(text).is_prefix_of(text),
        without_quotes(text).len() > 0 ==> without_quotes(text).last() != '"',
        text.len() == 0 || text.last() != '"' ==> without_quotes(text) == text,
        without_quotes(text.push('"')) == without_quotes(text),
    decreases text.len(),
{
    assert(text.push('"').drop_last() =~= text);
    if text.len() > 0 && text.last() == '"' {
        closing_quotes_are_dropped(text.drop_last());
        let kept = without_quotes(text);
        assert(text.subrange(0, kept.len() as int) =~= text.drop_last().subrange(
            0,
            kept.len() as int,
        ));
    } else {
        assert(text.subrange(0, text.len() as int) =~= text);
    }
}

} // verus!
