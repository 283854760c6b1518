//! Aggregation of disk usage under a project's build-artifact directory.
//!
//! [`MetaData`] is a running total of bytes and file count. It is additive:
//! examining several project roots with the same accumulator yields the sum
//! of what examining each alone would yield. Additions saturate at the
//! integer's ceiling instead of overflowing; no real directory tree comes
//! anywhere near it.

use vstd::prelude::*;
use vstd::string::StringExecFns;

use crate::tree::{
    child_named, find_child, first_named, resolve_from, target_bytes, target_name, walk_count,
    walk_size, Entry, FsNode,
};

verus! {

/// A running total capped at `cap`: the sum where it fits, the cap where not.
pub open spec fn sat_cap(total: nat, cap: nat) -> nat {
    if total > cap {
        cap
    } else {
        total
    }
}

/// The byte total a [`MetaData`] holds after adding `more` bytes to `size`.
pub open spec fn sat_size(size: u64, more: nat) -> nat {
    sat_cap(size as nat + more, u64::MAX as nat)
}

/// The file count a [`MetaData`] holds after adding `more` files to `files`.
pub open spec fn sat_files(files: usize, more: nat) -> nat {
    sat_cap(files as nat + more, usize::MAX as nat)
}

/// Aggregate disk usage: total bytes and number of regular files seen.
#[derive(Clone, Copy, Debug, PartialEq, Eq, Structural)]
pub struct MetaData {
    pub size: u64,
    pub files: usize,
}

impl MetaData {
    /// A fresh accumulator with both totals at zero.
    pub fn new() -> (r: MetaData)
        ensures
            r.size == 0,
            r.files == 0,
    {
        MetaData { size: 0, files: 0 }
    }

    /// Adds to the totals the usage under the `target` child of the project
    /// root `root`: every regular file anywhere below `root/target` counts
    /// its length in bytes and one file. A `root` whose `target` child is
    /// missing, unreadable, or no directory — a regular file of that name
    /// included — contributes nothing, as does any non-directory `root`.
    pub fn examine(&mut self, root: &FsNode)
        ensures
            final(self).size as nat == sat_size(
                old(self).size,
                walk_size(child_named(*root, target_name())),
            ),
            final(self).files as nat == sat_files(
                old(self).files,
                walk_count(child_named(*root, target_name())),
            ),
    {
        match root {
            FsNode::Dir { entries } => {
                let target = target_bytes();
                match find_child(entries, &target) {
                    Some(child) => self.recursive_examine(child),
                    None => (),
                }
            },
            _ => (),
        }
    }

    /// Adds to the totals what walking the path snapshotted as `n` yields:
    /// nothing unless `n` is a readable directory, since listing the entries
    /// of anything else fails, and such a failure is not propagated, it
    /// contributes nothing. Within a readable directory, a regular-file
    /// entry counts its length in bytes and one file, a directory entry is
    /// walked in turn, and every other entry is ignored.
    pub fn recursive_examine(&mut self, n: &FsNode)
        ensures
            final(self).size as nat == sat_size(old(self).size, walk_size(*n)),
            final(self).files as nat == sat_files(old(self).files, walk_count(*n)),
        decreases crate::tree::weight(*n),
    {
        match n {
            FsNode::Dir { entries } => {
                let ghost s = entries@;
                let ghost size0 = self.size;
                let ghost files0 = self.files;
                let mut i: usize = 0;
                while i < entries.len()
                    invariant
                        0 <= i <= entries.len(),
                        s == entries@,
                        crate::tree::weight(*n) == 1 + crate::tree::weight_from(s, 0),
                        sat_cap(self.size as nat + crate::tree::size_from(s, i as int), u64::MAX as nat)
                            == sat_size(size0, crate::tree::size_from(s, 0)),
                        sat_cap(self.files as nat + crate::tree::count_from(s, i as int), usize::MAX as nat)
                            == sat_files(files0, crate::tree::count_from(s, 0)),
                    decreases entries.len() - i,
                {
                    let node = &entries[i].node;
                    proof {
                        assert(*node == s[i as int].node);
                        assert(crate::tree::size_from(s, i as int) == crate::tree::size_of(
                            s[i as int].node,
                        ) + crate::tree::size_from(s, i + 1));
                        assert(crate::tree::count_from(s, i as int) == crate::tree::count_of(
                            s[i as int].node,
                        ) + crate::tree::count_from(s, i + 1));
                    }
                    match node {
                        FsNode::File { size } => {
                            self.size = self.size.saturating_add(*size);
                            self.files = self.files.saturating_add(1);
                        },
                        FsNode::Dir { .. } => {
                            proof {
                                crate::tree::lemma_weight_entry(entries@, 0, i as int);
                            }
                            self.recursive_examine(node);
                        },
                        FsNode::UnreadableDir => (),
                        FsNode::Other => (),
                    }
                    i = i + 1;
                }
            },
            _ => (),
        }
    }

    /// Adds to the totals the usage of the project whose root lies at `path`
    /// (a chain of entry names) below `root`, as [`Self::examine`] would count
    /// it there. A path that leads nowhere contributes nothing.
    pub fn examine_at(&mut self, root: &FsNode, path: &Vec<Vec<u8>>)
        ensures
            final(self).size as nat == sat_size(
                old(self).size,
                walk_size(child_named(resolve_from(*root, path.deep_view(), 0), target_name())),
            ),
            final(self).files as nat == sat_files(
                old(self).files,
                walk_count(child_named(resolve_from(*root, path.deep_view(), 0), target_name())),
            ),
    {
        self.examine_at_from(root, path, 0)
    }

    /// Walks the remaining components `path[i..]` from `n`, then examines the
    /// node they lead to.
    fn examine_at_from(&mut self, n: &FsNode, path: &Vec<Vec<u8>>, i: usize)
        requires
            i <= path.len(),
        ensures
            final(self).size as nat == sat_size(
                old(self).size,
                walk_size(child_named(resolve_from(*n, path.deep_view(), i as int), target_name())),
            ),
            final(self).files as nat == sat_files(
                old(self).files,
                walk_count(child_named(resolve_from(*n, path.deep_view(), i as int), target_name())),
            ),
        decreases path.len() - i,
    {
        if i == path.len() {
            self.examine(n);
        } else {
            proof {
                assert(path.deep_view()[i as int] =~= path@[i as int]@);
            }
            match n {
                FsNode::Dir { entries } => {
                    match find_child(entries, &path[i]) {
                        Some(child) => {
                            self.examine_at_from(child, path, i + 1);
                        },
                        None => {
                            proof {
                                lemma_resolve_other(path.deep_view(), i + 1);
                            }
                        },
                    }
                },
                _ => {
                    proof {
                        lemma_resolve_other(path.deep_view(), i + 1);
                    }
                },
            }
        }
    }
}

/// One decimal digit as a one-character string. Callers keep `d` below ten.
pub open spec fn digit(d: nat) -> Seq<char> {
    if d == 0 {
        "0"@
    } else if d == 1 {
        "1"@
    } else if d == 2 {
        "2"@
    } else if d == 3 {
        "3"@
    } else if d == 4 {
        "4"@
    } else if d == 5 {
        "5"@
    } else if d == 6 {
        "6"@
    } else if d == 7 {
        "7"@
    } else if d == 8 {
        "8"@
    } else {
        "9"@
    }
}

/// The decimal digits of `n`, most significant first, no leading zeros
/// (zero itself is `"0"`).
pub open spec fn dec_str(n: nat) -> Seq<char>
    decreases n,
{
    if n < 10 {
        digit(n)
    } else {
        dec_str(n / 10) + digit(n % 10)
    }
}

/// `size` bytes as hundredths of a mebibyte (2^20 bytes), rounded to the
/// nearest hundredth, halves upward.
pub open spec fn mb_hundredths(size: nat) -> nat {
    (size * 100 + 524288) / 1048576
}

/// `size` bytes as ten-thousandths of a gibibyte (2^30 bytes), rounded to
/// the nearest ten-thousandth, halves upward.
pub open spec fn gb_tenthousandths(size: nat) -> nat {
    (size * 10000 + 536870912) / 1073741824
}

/// A fraction of at most two digits, padded to exactly two.
pub open spec fn pad2(f: nat) -> Seq<char> {
    if f < 10 {
        "0"@ + dec_str(f)
    } else {
        dec_str(f)
    }
}

/// A fraction of at most four digits, padded to exactly four.
pub open spec fn pad4(f: nat) -> Seq<char> {
    if f < 10 {
        "000"@ + dec_str(f)
    } else if f < 100 {
        "00"@ + dec_str(f)
    } else if f < 1000 {
        "0"@ + dec_str(f)
    } else {
        dec_str(f)
    }
}

/// `v` hundredths, rendered as a number with exactly two decimals.
pub open spec fn fixed2(v: nat) -> Seq<char> {
    dec_str(v / 100) + "."@ + pad2(v % 100)
}

/// `v` ten-thousandths, rendered as a number with exactly four decimals.
pub open spec fn fixed4(v: nat) -> Seq<char> {
    dec_str(v / 10000) + "."@ + pad4(v % 10000)
}

/// The whole three-line report: file count, then the byte total in
/// mebibytes to two decimals, then in gibibytes to four.
pub open spec fn render_spec(files: nat, size: nat) -> Seq<char> {
    "files: "@ + dec_str(files) + "\nsize mb: "@ + fixed2(mb_hundredths(size)) + "\nsize gb: "@
        + fixed4(gb_tenthousandths(size))
}

/// Appends the single digit `d`.
fn append_digit(out: &mut String, d: u128)
    requires
        d < 10,
    ensures
        final(out)@ == old(out)@ + digit(d as nat),
{
    if d == 0 {
        out.append("0");
    } else if d == 1 {
        out.append("1");
    } else if d == 2 {
        out.append("2");
    } else if d == 3 {
        out.append("3");
    } else if d == 4 {
        out.append("4");
    } else if d == 5 {
        out.append("5");
    } else if d == 6 {
        out.append("6");
    } else if d == 7 {
        out.append("7");
    } else if d == 8 {
        out.append("8");
    } else {
        out.append("9");
    }
}

/// Appends the decimal digits of `n`.
fn append_dec(out: &mut String, n: u128)
    ensures
        final(out)@ == old(out)@ + dec_str(n as nat),
    decreases n,
{
    if n < 10 {
        append_digit(out, n);
    } else {
        append_dec(out, n / 10);
        append_digit(out, n % 10);
        proof {
            assert(out@ =~= old(out)@ + dec_str(n as nat));
        }
    }
}

/// Appends the fraction `f`, padded to two digits.
fn append_pad2(out: &mut String, f: u128)
    requires
        f < 100,
    ensures
        final(out)@ == old(out)@ + pad2(f as nat),
{
    if f < 10 {
        out.append("0");
    }
    append_dec(out, f);
    proof {
        assert(out@ =~= old(out)@ + pad2(f as nat));
    }
}

/// Appends the fraction `f`, padded to four digits.
fn append_pad4(out: &mut String, f: u128)
    requires
        f < 10000,
    ensures
        final(out)@ == old(out)@ + pad4(f as nat),
{
    if f < 10 {
        out.append("000");
    } else if f < 100 {
        out.append("00");
    } else if f < 1000 {
        out.append("0");
    }
    append_dec(out, f);
    proof {
        assert(out@ =~= old(out)@ + pad4(f as nat));
    }
}

impl MetaData {
    /// The three-line usage report, exactly as it is printed: the file
    /// count, the byte total in mebibytes to two decimals, and the byte
    /// total in gibibytes to four decimals, both binary-based and rounded
    /// to the nearest, halves upward.
    pub fn render(&self) -> (r: String)
        ensures
            r@ == render_spec(self.files as nat, self.size as nat),
    {
        let mut out = String::new();
        out.append("files: ");
        append_dec(&mut out, self.files as u128);
        out.append("\nsize mb: ");
        let mb: u128 = ((self.size as u128) * 100 + 524288) / 1048576;
        append_dec(&mut out, mb / 100);
        out.append(".");
        append_pad2(&mut out, mb % 100);
        out.append("\nsize gb: ");
        let gb: u128 = ((self.size as u128) * 10000 + 536870912) / 1073741824;
        append_dec(&mut out, gb / 10000);
        out.append(".");
        append_pad4(&mut out, gb % 10000);
        proof {
            assert(mb as nat == mb_hundredths(self.size as nat));
            assert(gb as nat == gb_tenthousandths(self.size as nat));
            assert(out@ =~= render_spec(self.files as nat, self.size as nat));
        }
        out
    }
}

/// Additivity of accumulation: examining two projects one after the other
/// into a single accumulator yields, field-wise, exactly what their two
/// separate contributions add up to — folding a list of projects into one
/// report is the same as summing per-project reports. (The totals cap at
/// the field's ceiling, and the capped sum is associative in this way.)
pub proof fn lemma_accumulate_additive(start: nat, first: nat, second: nat, cap: nat)
    ensures
        sat_cap(sat_cap(start + first, cap) + second, cap) == sat_cap(
            start + (first + second),
            cap,
        ),
{
}

/// Additivity without the cap: as long as the combined contribution still
/// fits the field, the totals add exactly — what a walk adds does not
/// depend on the value the accumulator starts from, so accumulating two
/// projects into one report equals accumulating each into a fresh report
/// and summing field-wise. (At the ceiling itself the totals clamp, which
/// is why the hypothesis is needed.)
pub proof fn lemma_accumulate_additive_exact(start: nat, first: nat, second: nat, cap: nat)
    requires
        start + first + second <= cap,
    ensures
        sat_cap(sat_cap(start + first, cap) + second, cap) == start + (first + second),
        sat_cap(sat_cap(0 + first, cap) + second, cap) == first + second,
{
}

/// Robustness to a missing artifact directory: examining a root that has no
/// child named `target` — or is no directory at all — leaves both totals
/// exactly as they were; it is no error.
pub proof fn lemma_examine_missing_target(before: MetaData, root: FsNode)
    requires
        (match root {
            FsNode::Dir { entries } => forall|k: int|
                0 <= k < entries@.len() ==> entries@[k].name@ != target_name(),
            _ => true,
        }),
    ensures
        sat_size(before.size, walk_size(child_named(root, target_name()))) == before.size as nat,
        sat_files(before.files, walk_count(child_named(root, target_name()))) == before.files as nat,
{
    match root {
        FsNode::Dir { entries } => {
            lemma_first_named_missing(entries@, target_name(), 0);
        },
        _ => {},
    }
}

/// With no entry of the given name from position `i` on, the lookup yields
/// [`FsNode::Other`].
proof fn lemma_first_named_missing(s: Seq<Entry>, name: Seq<u8>, i: int)
    requires
        forall|k: int| 0 <= k < s.len() ==> s[k].name@ != name,
    ensures
        first_named(s, name, i) is Other,
    decreases s.len() - i,
{
    if 0 <= i < s.len() {
        lemma_first_named_missing(s, name, i + 1);
    }
}

/// From [`FsNode::Other`] no path leads anywhere: resolving any remaining
/// components still yields `Other`.
proof fn lemma_resolve_other(path: Seq<Seq<u8>>, i: int)
    ensures
        resolve_from(FsNode::Other, path, i) == FsNode::Other,
    decreases path.len() - i,
{
    if 0 <= i < path.len() {
        lemma_resolve_other(path, i + 1);
    }
}

} // verus!
