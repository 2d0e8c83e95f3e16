//! Human and diff renderings of violations and verdicts.
use vstd::prelude::*;

use super::{
    FingerprintedViolation, PolicyViolation, UnresolvedEdge, Verdict, VerdictDisposition, VerdictStatus,
    VerdictViolation, ViolationDisposition, count_where, is_error, is_new,
};
use crate::paths::{join_strings, join_with, normalize_repo_relative, repo_relative};
use crate::spec::Severity;
use crate::text::{
    decimal, find_char, index_of, lemma_index_of, lemma_seq_order_antisymmetric, owned, push_char, push_decimal,
    push_str, seq_order, slice_chars, str_eq, str_order, views,
};
use crate::order::lemma_seq_order_facts;

verus! {

/// Bytes of the UTF-8 encoding of one character.
pub open spec fn utf8_width(c: char) -> nat {
    if (c as u32) < 0x80 {
        1
    } else if (c as u32) < 0x800 {
        2
    } else if (c as u32) < 0x10000 {
        3
    } else {
        4
    }
}

/// Bytes of the UTF-8 encoding of a text.
pub open spec fn utf8_len(s: Seq<char>) -> nat
    decreases s.len(),
{
    if s.len() == 0 {
        0
    } else {
        utf8_width(s[0]) + utf8_len(s.drop_first())
    }
}

/// How many leading characters fit in `n` bytes.
pub open spec fn chars_within(s: Seq<char>, n: int) -> nat
    decreases s.len(),
{
    if s.len() == 0 || utf8_width(s[0]) > n {
        0
    } else {
        1 + chars_within(s.drop_first(), n - utf8_width(s[0]))
    }
}

/// The first `n` bytes of `s` end on a character boundary (or `s` is shorter).
pub open spec fn byte_prefix_ok(s: Seq<char>, n: int) -> bool {
    chars_within(s, n) == s.len() || utf8_len(s.take(chars_within(s, n) as int)) == n
}

/// The text of the first `n` bytes of `s` (all of `s` when it is shorter).
pub open spec fn byte_prefix(s: Seq<char>, n: int) -> Seq<char> {
    s.take(chars_within(s, n) as int)
}

/// The short form of a fingerprint: its first twelve bytes.
pub open spec fn short_fingerprint(f: Seq<char>) -> Seq<char> {
    byte_prefix(f, 12)
}

pub fn char_width(c: char) -> (r: usize)
    ensures
        r == utf8_width(c),
{
    let u = c as u32;
    if u < 0x80 {
        1
    } else if u < 0x800 {
        2
    } else if u < 0x10000 {
        3
    } else {
        4
    }
}

/// The first `n` bytes of `s`, which must end on a character boundary.
fn take_bytes(s: &str, n: usize) -> (r: &str)
    requires
        byte_prefix_ok(s@, n as int),
    ensures
        r@ == byte_prefix(s@, n as int),
{
    let len = s.unicode_len();
    let mut k: usize = 0;
    let mut left: usize = n;
    assert(s@.skip(0) =~= s@);
    while k < len
        invariant
            len == s@.len(),
            k <= len,
            left <= n,
            chars_within(s@, n as int) == k + chars_within(s@.skip(k as int), left as int),
        ensures
            k <= len,
            chars_within(s@, n as int) == k + chars_within(s@.skip(k as int), left as int),
            k == len || utf8_width(s@[k as int]) > left,
        decreases len - k,
    {
        let w = char_width(s.get_char(k));
        let ghost rest = s@.skip(k as int);
        assert(rest[0] == s@[k as int]);
        if w > left {
            break;
        }
        assert(rest.drop_first() =~= s@.skip(k + 1));
        left = left - w;
        k = k + 1;
    }
    assert(chars_within(s@.skip(k as int), left as int) == 0) by {
        if k < len {
            assert(s@.skip(k as int)[0] == s@[k as int]);
        }
    }
    slice_chars(s, 0, k)
}

pub open spec fn disposition_label(d: ViolationDisposition) -> Seq<char> {
    match d {
        ViolationDisposition::New => "NEW"@,
        ViolationDisposition::Baseline => "BASELINE"@,
    }
}

pub open spec fn severity_label(s: Severity) -> Seq<char> {
    match s {
        Severity::Error => "ERROR"@,
        Severity::Warning => "WARN"@,
    }
}

pub open spec fn column_or_zero(c: Option<u32>) -> nat {
    match c {
        Some(c) => c as nat,
        None => 0,
    }
}

/// `file:line:column`, or the file alone when there is no line.
pub open spec fn location_text(root: Seq<char>, v: PolicyViolation) -> Seq<char> {
    match v.line {
        Some(line) => repo_relative(root, v.from_file@) + ":"@ + decimal(line as nat) + ":"@ + decimal(
            column_or_zero(v.column),
        ),
        None => repo_relative(root, v.from_file@),
    }
}

/// ` [from -> to]`, ` [from]`, ` [-> to]`, or nothing.
pub open spec fn module_context(from: Option<String>, to: Option<String>) -> Seq<char> {
    match (from, to) {
        (Some(f), Some(t)) => " ["@ + f@ + " -> "@ + t@ + "]"@,
        (Some(f), None) => " ["@ + f@ + "]"@,
        (None, Some(t)) => " [-> "@ + t@ + "]"@,
        (None, None) => Seq::empty(),
    }
}

pub open spec fn target_context(root: Seq<char>, to: Option<String>) -> Seq<char> {
    match to {
        Some(t) => " -> "@ + repo_relative(root, t@),
        None => Seq::empty(),
    }
}

/// One line of human output for a violation.
pub open spec fn violation_human_text(root: Seq<char>, e: FingerprintedViolation) -> Seq<char> {
    let v = e.violation;
    "["@ + disposition_label(e.disposition) + "] "@ + location_text(root, v) + module_context(
        v.from_module,
        v.to_module,
    ) + target_context(root, v.to_file) + ": "@ + severity_label(v.severity) + " - "@ + v.message@
        + " ["@ + v.rule@ + "] (fingerprint: "@ + short_fingerprint(e.fingerprint@) + ")"@
}

fn push_location(out: &mut String, project_root: &str, v: &PolicyViolation)
    ensures
        final(out)@ == old(out)@ + location_text(project_root@, *v),
{
    let from = normalize_repo_relative(project_root, v.from_file.as_str());
    push_str(out, from.as_str());
    match v.line {
        Some(line) => {
            push_str(out, ":");
            push_decimal(out, line as u64);
            push_str(out, ":");
            let col: u32 = match v.column {
                Some(c) => c,
                None => 0,
            };
            push_decimal(out, col as u64);
        },
        None => {},
    }
    assert(final(out)@ =~= old(out)@ + location_text(project_root@, *v));
}

fn push_module_context(out: &mut String, from: &Option<String>, to: &Option<String>)
    ensures
        final(out)@ == old(out)@ + module_context(*from, *to),
{
    match (from, to) {
        (Some(f), Some(t)) => {
            push_str(out, " [");
            push_str(out, f.as_str());
            push_str(out, " -> ");
            push_str(out, t.as_str());
            push_str(out, "]");
        },
        (Some(f), None) => {
            push_str(out, " [");
            push_str(out, f.as_str());
            push_str(out, "]");
        },
        (None, Some(t)) => {
            push_str(out, " [-> ");
            push_str(out, t.as_str());
            push_str(out, "]");
        },
        (None, None) => {},
    }
    assert(final(out)@ =~= old(out)@ + module_context(*from, *to));
}

/// Renders a violation for human-readable output.
pub fn format_violation_human(project_root: &str, entry: &FingerprintedViolation) -> (r: String)
    requires
        byte_prefix_ok(entry.fingerprint@, 12),
    ensures
        r@ == violation_human_text(project_root@, *entry),
{
    let v = &entry.violation;
    let mut out = String::new();
    push_str(&mut out, "[");
    push_str(
        &mut out,
        match entry.disposition {
            ViolationDisposition::New => "NEW",
            ViolationDisposition::Baseline => "BASELINE",
        },
    );
    push_str(&mut out, "] ");
    push_location(&mut out, project_root, v);
    push_module_context(&mut out, &v.from_module, &v.to_module);
    match &v.to_file {
        Some(t) => {
            push_str(&mut out, " -> ");
            let rel = normalize_repo_relative(project_root, t.as_str());
            push_str(&mut out, rel.as_str());
        },
        None => {},
    }
    push_str(&mut out, ": ");
    push_str(
        &mut out,
        match v.severity {
            Severity::Error => "ERROR",
            Severity::Warning => "WARN",
        },
    );
    push_str(&mut out, " - ");
    push_str(&mut out, v.message.as_str());
    push_str(&mut out, " [");
    push_str(&mut out, v.rule.as_str());
    push_str(&mut out, "] (fingerprint: ");
    push_str(&mut out, take_bytes(entry.fingerprint.as_str(), 12));
    push_str(&mut out, ")");
    assert(out@ =~= violation_human_text(project_root@, *entry));
    out
}

pub open spec fn opt_or_dash(o: Option<String>) -> Seq<char> {
    match o {
        Some(s) => s@,
        None => "-"@,
    }
}

pub open spec fn colon_number(o: Option<u32>) -> Seq<char> {
    match o {
        Some(n) => ":"@ + decimal(n as nat),
        None => Seq::empty(),
    }
}

/// One tab-separated line of diff output for a violation: `+` for new and a
/// space for baseline violations, then file, `:line`, `:column`, `E`/`W`,
/// rule, modules, target file and message.
pub open spec fn violation_diff_text(root: Seq<char>, e: FingerprintedViolation) -> Seq<char> {
    let v = e.violation;
    let prefix = match e.disposition {
        ViolationDisposition::New => "+"@,
        ViolationDisposition::Baseline => " "@,
    };
    let to_path = match v.to_file {
        Some(t) => repo_relative(root, t@),
        None => "-"@,
    };
    let severity = match v.severity {
        Severity::Error => "E"@,
        Severity::Warning => "W"@,
    };
    prefix + repo_relative(root, v.from_file@) + "\t"@ + colon_number(v.line) + "\t"@ + colon_number(v.column)
        + "\t"@ + severity + "\t"@ + v.rule@ + "\t"@ + opt_or_dash(v.from_module) + "\t"@ + opt_or_dash(
        v.to_module,
    ) + "\t"@ + to_path + "\t"@ + v.message@
}

fn push_colon_number(out: &mut String, o: Option<u32>)
    ensures
        final(out)@ == old(out)@ + colon_number(o),
{
    match o {
        Some(n) => {
            push_str(out, ":");
            push_decimal(out, n as u64);
        },
        None => {},
    }
    assert(final(out)@ =~= old(out)@ + colon_number(o));
}

fn push_opt_or_dash(out: &mut String, o: &Option<String>)
    ensures
        final(out)@ == old(out)@ + opt_or_dash(*o),
{
    match o {
        Some(s) => push_str(out, s.as_str()),
        None => push_str(out, "-"),
    }
}

/// Renders a violation for diff mode (machine-readable, git-style).
pub fn format_violation_diff(project_root: &str, entry: &FingerprintedViolation) -> (r: String)
    ensures
        r@ == violation_diff_text(project_root@, *entry),
{
    let v = &entry.violation;
    let mut out = String::new();
    push_str(
        &mut out,
        match entry.disposition {
            ViolationDisposition::New => "+",
            ViolationDisposition::Baseline => " ",
        },
    );
    let from = normalize_repo_relative(project_root, v.from_file.as_str());
    push_str(&mut out, from.as_str());
    push_str(&mut out, "\t");
    push_colon_number(&mut out, v.line);
    push_str(&mut out, "\t");
    push_colon_number(&mut out, v.column);
    push_str(&mut out, "\t");
    push_str(
        &mut out,
        match v.severity {
            Severity::Error => "E",
            Severity::Warning => "W",
        },
    );
    push_str(&mut out, "\t");
    push_str(&mut out, v.rule.as_str());
    push_str(&mut out, "\t");
    push_opt_or_dash(&mut out, &v.from_module);
    push_str(&mut out, "\t");
    push_opt_or_dash(&mut out, &v.to_module);
    push_str(&mut out, "\t");
    match &v.to_file {
        Some(t) => {
            let rel = normalize_repo_relative(project_root, t.as_str());
            push_str(&mut out, rel.as_str());
        },
        None => push_str(&mut out, "-"),
    }
    push_str(&mut out, "\t");
    push_str(&mut out, v.message.as_str());
    assert(out@ =~= violation_diff_text(project_root@, *entry));
    out
}

/// The header lines of the summary table.
pub open spec fn table_header() -> Seq<Seq<char>> {
    seq!["FINGERPRINT\tSEVERITY\tRULE\tLOCATION\tSTATUS"@, "───────────\t────────\t────\t────────\t──────"@]
}

/// One row of the summary table.
pub open spec fn table_row(root: Seq<char>, e: FingerprintedViolation) -> Seq<char> {
    short_fingerprint(e.fingerprint@) + "\t"@ + severity_label(e.violation.severity) + "\t"@ + e.violation.rule@
        + "\t"@ + repo_relative(root, e.violation.from_file@) + "\t"@ + disposition_label(e.disposition)
}

/// Formats violations as a tab-separated table under a two-line header.
pub fn format_summary_table(project_root: &str, violations: &[FingerprintedViolation]) -> (r: String)
    requires
        forall|i: int| 0 <= i < violations@.len() ==> byte_prefix_ok(#[trigger] violations@[i].fingerprint@, 12),
    ensures
        r@ == join_with(
            table_header() + violations@.map_values(|e: FingerprintedViolation| table_row(project_root@, e)),
            '\n',
        ),
{
    let mut lines: Vec<String> = Vec::new();
    lines.push(owned("FINGERPRINT\tSEVERITY\tRULE\tLOCATION\tSTATUS"));
    lines.push(owned("───────────\t────────\t────\t────────\t──────"));
    let ghost rows = violations@.map_values(|e: FingerprintedViolation| table_row(project_root@, e));
    assert(views(lines@) =~= table_header() + rows.take(0));
    let mut i: usize = 0;
    while i < violations.len()
        invariant
            i <= violations@.len(),
            rows == violations@.map_values(|e: FingerprintedViolation| table_row(project_root@, e)),
            forall|j: int| 0 <= j < violations@.len() ==> byte_prefix_ok(#[trigger] violations@[j].fingerprint@, 12),
            views(lines@) == table_header() + rows.take(i as int),
        decreases violations@.len() - i,
    {
        let e = &violations[i];
        let mut row = String::new();
        push_str(&mut row, take_bytes(e.fingerprint.as_str(), 12));
        push_str(&mut row, "\t");
        push_str(
            &mut row,
            match e.violation.severity {
                Severity::Error => "ERROR",
                Severity::Warning => "WARN",
            },
        );
        push_str(&mut row, "\t");
        push_str(&mut row, e.violation.rule.as_str());
        push_str(&mut row, "\t");
        let loc = normalize_repo_relative(project_root, e.violation.from_file.as_str());
        push_str(&mut row, loc.as_str());
        push_str(&mut row, "\t");
        push_str(
            &mut row,
            match e.disposition {
                ViolationDisposition::New => "NEW",
                ViolationDisposition::Baseline => "BASELINE",
            },
        );
        assert(row@ =~= table_row(project_root@, *e));
        assert(rows[i as int] == table_row(project_root@, violations@[i as int]));
        let ghost before = views(lines@);
        lines.push(row);
        assert(views(lines@) =~= before.push(rows[i as int]));
        assert(rows.take(i + 1) =~= rows.take(i as int).push(rows[i as int]));
        assert(views(lines@) =~= table_header() + rows.take(i + 1));
        i = i + 1;
    }
    assert(rows.take(i as int) =~= rows);
    let r = join_strings(&lines, 0, '\n');
    assert(views(lines@).skip(0) =~= views(lines@));
    r
}

/// Summary statistics for human output.
#[derive(Debug, Clone, Copy, PartialEq, Eq, Structural)]
pub struct ViolationStats {
    pub total: usize,
    pub errors: usize,
    pub warnings: usize,
    pub new: usize,
    pub baseline: usize,
}

/// The comma-separated parts of the human statistics line.
pub open spec fn stats_parts(s: ViolationStats) -> Seq<Seq<char>> {
    let head = seq![decimal(s.total as nat) + " total"@];
    let with_new = if s.new > 0 { head.push(decimal(s.new as nat) + " new"@) } else { head };
    let with_baseline = if s.baseline > 0 {
        with_new.push(decimal(s.baseline as nat) + " baseline"@)
    } else {
        with_new
    };
    with_baseline.push(decimal(s.errors as nat) + " errors"@).push(decimal(s.warnings as nat) + " warnings"@)
}

/// Joins parts with `, `.
pub open spec fn join_comma(parts: Seq<Seq<char>>) -> Seq<char>
    decreases parts.len(),
{
    if parts.len() == 0 {
        Seq::empty()
    } else if parts.len() == 1 {
        parts[0]
    } else {
        join_comma(parts.drop_last()) + ", "@ + parts.last()
    }
}

proof fn lemma_join_comma_push(parts: Seq<Seq<char>>, x: Seq<char>)
    requires
        parts.len() >= 1,
    ensures
        join_comma(parts.push(x)) == join_comma(parts) + ", "@ + x,
{
    assert(parts.push(x).drop_last() =~= parts);
}

fn counted(n: usize, label: &str) -> (r: String)
    ensures
        r@ == decimal(n as nat) + label@,
{
    let mut s = String::new();
    push_decimal(&mut s, n as u64);
    push_str(&mut s, label);
    s
}

impl ViolationStats {
    /// Counts of all, error, warning, new and baseline violations.
    pub fn from_violations(violations: &[FingerprintedViolation]) -> (r: Self)
        ensures
            r.total == violations@.len(),
            r.new == count_where(violations@, |v: FingerprintedViolation| is_new(v)),
            r.baseline == violations@.len() - count_where(violations@, |v: FingerprintedViolation| is_new(v)),
            r.errors == count_where(violations@, |v: FingerprintedViolation| is_error(v)),
            r.warnings == violations@.len() - count_where(violations@, |v: FingerprintedViolation| is_error(v)),
    {
        let ghost vs = violations@;
        let mut new: usize = 0;
        let mut errors: usize = 0;
        let mut i: usize = 0;
        while i < violations.len()
            invariant
                vs == violations@,
                i <= vs.len(),
                new == count_where(vs.take(i as int), |v: FingerprintedViolation| is_new(v)),
                errors == count_where(vs.take(i as int), |v: FingerprintedViolation| is_error(v)),
                new <= i,
                errors <= i,
            decreases vs.len() - i,
        {
            assert(vs.take(i + 1).drop_last() =~= vs.take(i as int));
            assert(vs.take(i + 1).last() == vs[i as int]);
            match violations[i].disposition {
                ViolationDisposition::New => {
                    new = new + 1;
                },
                ViolationDisposition::Baseline => {},
            }
            match violations[i].violation.severity {
                Severity::Error => {
                    errors = errors + 1;
                },
                Severity::Warning => {},
            }
            i = i + 1;
        }
        assert(vs.take(i as int) =~= vs);
        ViolationStats {
            total: violations.len(),
            errors,
            warnings: violations.len() - errors,
            new,
            baseline: violations.len() - new,
        }
    }

    /// `N total[, N new][, N baseline], N errors, N warnings`.
    pub fn format_human(&self) -> (r: String)
        ensures
            r@ == join_comma(stats_parts(*self)),
    {
        let mut out = counted(self.total, " total");
        let ghost mut parts: Seq<Seq<char>> = seq![out@];
        if self.new > 0 {
            let part = counted(self.new, " new");
            proof {
                lemma_join_comma_push(parts, part@);
                parts = parts.push(part@);
            }
            push_str(&mut out, ", ");
            push_str(&mut out, part.as_str());
        }
        if self.baseline > 0 {
            let part = counted(self.baseline, " baseline");
            proof {
                lemma_join_comma_push(parts, part@);
                parts = parts.push(part@);
            }
            push_str(&mut out, ", ");
            push_str(&mut out, part.as_str());
        }
        let e = counted(self.errors, " errors");
        proof {
            lemma_join_comma_push(parts, e@);
            parts = parts.push(e@);
        }
        push_str(&mut out, ", ");
        push_str(&mut out, e.as_str());
        let w = counted(self.warnings, " warnings");
        proof {
            lemma_join_comma_push(parts, w@);
            parts = parts.push(w@);
        }
        push_str(&mut out, ", ");
        push_str(&mut out, w.as_str());
        assert(parts =~= stats_parts(*self));
        assert(out@ =~= join_comma(parts));
        out
    }
}

pub open spec fn opt_text(o: Option<String>) -> Option<Seq<char>> {
    match o {
        Some(s) => Some(s@),
        None => None,
    }
}

/// The first two lines describing a verdict violation: headline and location.
pub open spec fn block_head(v: VerdictViolation) -> Seq<Seq<char>> {
    let icon = match v.severity {
        Severity::Error => "✗"@,
        Severity::Warning => "⚠"@,
    };
    let label = match v.disposition {
        VerdictDisposition::New => "[NEW] "@,
        VerdictDisposition::Baseline => "[BASELINE] "@,
    };
    let level = match v.severity {
        Severity::Error => "error"@,
        Severity::Warning => "warning"@,
    };
    let location = match v.line {
        Some(line) => v.from_file@ + ":"@ + decimal(line as nat) + ":"@ + decimal(column_or_zero(v.column)),
        None => v.from_file@,
    };
    seq![icon + " "@ + level + "["@ + v.rule@ + "] "@ + label + v.message@, "  Location: "@ + location]
}

pub open spec fn block_target(v: VerdictViolation, prev: Seq<Seq<char>>) -> Seq<Seq<char>> {
    match v.to_file {
        Some(t) => prev.push("  Target: "@ + t@),
        None => prev,
    }
}

pub open spec fn block_modules(v: VerdictViolation, prev: Seq<Seq<char>>) -> Seq<Seq<char>> {
    match (v.from_module, v.to_module) {
        (Some(f), Some(t)) => prev.push("  Modules: "@ + f@ + " → "@ + t@),
        (Some(f), None) => prev.push("  Module: "@ + f@),
        (None, Some(t)) => prev.push("  Target Module: "@ + t@),
        (None, None) => prev,
    }
}

pub open spec fn block_help(v: VerdictViolation, prev: Seq<Seq<char>>) -> Seq<Seq<char>> {
    match v.remediation_hint {
        Some(h) => prev.push("  Help: "@ + h@),
        None => prev.push(
            "  Help: No remediation hint was attached; review this rule's docs and update spec/config to satisfy the contract."@,
        ),
    }
}

pub open spec fn block_details(v: VerdictViolation, prev: Seq<Seq<char>>) -> Seq<Seq<char>> {
    let with_expected = match v.expected {
        Some(x) => prev.push("  Expected: "@ + x@),
        None => prev,
    };
    let with_actual = match v.actual {
        Some(x) => with_expected.push("  Actual: "@ + x@),
        None => with_expected,
    };
    with_actual.push("  Fingerprint: "@ + v.fingerprint@)
}

/// The lines describing one verdict violation: headline, location, target,
/// modules, help, expected and actual values, fingerprint.
pub open spec fn violation_block_lines(v: VerdictViolation) -> Seq<Seq<char>> {
    block_details(v, block_help(v, block_modules(v, block_target(v, block_head(v)))))
}

fn push_line(lines: &mut Vec<String>, line: String)
    ensures
        views(final(lines)@) == views(old(lines)@).push(line@),
{
    lines.push(line);
    assert(views(final(lines)@) =~= views(old(lines)@).push(line@));
}

/// Formats one verdict violation for human output.
pub fn format_violation_human_line(violation: &VerdictViolation) -> (r: String)
    ensures
        r@ == join_with(violation_block_lines(*violation), '\n'),
{
    let v = violation;
    let mut lines: Vec<String> = Vec::new();
    let mut first = String::new();
    push_str(
        &mut first,
        match v.severity {
            Severity::Error => "✗",
            Severity::Warning => "⚠",
        },
    );
    push_str(&mut first, " ");
    push_str(
        &mut first,
        match v.severity {
            Severity::Error => "error",
            Severity::Warning => "warning",
        },
    );
    push_str(&mut first, "[");
    push_str(&mut first, v.rule.as_str());
    push_str(&mut first, "] ");
    push_str(
        &mut first,
        match v.disposition {
            VerdictDisposition::New => "[NEW] ",
            VerdictDisposition::Baseline => "[BASELINE] ",
        },
    );
    push_str(&mut first, v.message.as_str());
    assert(first@ =~= block_head(*v)[0]);
    push_line(&mut lines, first);
    let mut loc = owned("  Location: ");
    push_str(&mut loc, v.from_file.as_str());
    match v.line {
        Some(line) => {
            push_str(&mut loc, ":");
            push_decimal(&mut loc, line as u64);
            push_str(&mut loc, ":");
            let col: u32 = match v.column {
                Some(c) => c,
                None => 0,
            };
            push_decimal(&mut loc, col as u64);
        },
        None => {},
    }
    assert(loc@ =~= block_head(*v)[1]);
    push_line(&mut lines, loc);
    assert(views(lines@) =~= block_head(*v));
    let ghost stage = views(lines@);
    match &v.to_file {
        Some(t) => {
            let mut l = owned("  Target: ");
            push_str(&mut l, t.as_str());
            push_line(&mut lines, l);
        },
        None => {},
    }
    assert(views(lines@) =~= block_target(*v, stage));
    let ghost stage = views(lines@);
    match (&v.from_module, &v.to_module) {
        (Some(f), Some(t)) => {
            let mut l = owned("  Modules: ");
            push_str(&mut l, f.as_str());
            push_str(&mut l, " → ");
            push_str(&mut l, t.as_str());
            push_line(&mut lines, l);
        },
        (Some(f), None) => {
            let mut l = owned("  Module: ");
            push_str(&mut l, f.as_str());
            push_line(&mut lines, l);
        },
        (None, Some(t)) => {
            let mut l = owned("  Target Module: ");
            push_str(&mut l, t.as_str());
            push_line(&mut lines, l);
        },
        (None, None) => {},
    }
    assert(views(lines@) =~= block_modules(*v, stage));
    let ghost stage = views(lines@);
    match &v.remediation_hint {
        Some(h) => {
            let mut l = owned("  Help: ");
            push_str(&mut l, h.as_str());
            push_line(&mut lines, l);
        },
        None => {
            push_line(
                &mut lines,
                owned(
                    "  Help: No remediation hint was attached; review this rule's docs and update spec/config to satisfy the contract.",
                ),
            );
        },
    }
    assert(views(lines@) =~= block_help(*v, stage));
    let ghost stage = views(lines@);
    match &v.expected {
        Some(x) => {
            let mut l = owned("  Expected: ");
            push_str(&mut l, x.as_str());
            push_line(&mut lines, l);
        },
        None => {},
    }
    match &v.actual {
        Some(x) => {
            let mut l = owned("  Actual: ");
            push_str(&mut l, x.as_str());
            push_line(&mut lines, l);
        },
        None => {},
    }
    let mut l = owned("  Fingerprint: ");
    push_str(&mut l, v.fingerprint.as_str());
    push_line(&mut lines, l);
    assert(views(lines@) =~= block_details(*v, stage));
    assert(views(lines@).skip(0) =~= views(lines@));
    join_strings(&lines, 0, '\n')
}

pub open spec fn status_text(s: VerdictStatus) -> Seq<char> {
    match s {
        VerdictStatus::Pass => "Pass"@,
        VerdictStatus::Fail => "Fail"@,
    }
}

pub open spec fn push_if(cond: bool, lines: Seq<Seq<char>>, line: Seq<char>) -> Seq<Seq<char>> {
    if cond { lines.push(line) } else { lines }
}

/// The lines of the summary section.
pub open spec fn summary_lines(verdict: Verdict) -> Seq<Seq<char>> {
    let s = verdict.summary;
    let a = seq!["Summary:"@, "  Total violations: "@ + decimal(s.core.total_violations as nat)];
    let b = push_if(s.core.new_violations > 0, a, "  New violations: "@ + decimal(s.core.new_violations as nat));
    let c = push_if(
        s.core.baseline_violations > 0,
        b,
        "  Baseline violations: "@ + decimal(s.core.baseline_violations as nat),
    );
    let d = push_if(
        s.suppressed_violations > 0,
        c,
        "  Suppressed violations: "@ + decimal(s.suppressed_violations as nat),
    );
    let e = d.push("  Errors: "@ + decimal(s.error_violations as nat)).push(
        "  Warnings: "@ + decimal(s.warning_violations as nat),
    );
    let f = push_if(
        s.core.stale_baseline_entries > 0,
        e,
        "  Stale baseline entries: "@ + decimal(s.core.stale_baseline_entries as nat),
    );
    f.push(Seq::empty()).push("Status: "@ + status_text(verdict.status)).push(
        "Verdict schema: "@ + verdict.verdict_schema@,
    )
}

fn labelled(label: &str, n: usize) -> (r: String)
    ensures
        r@ == label@ + decimal(n as nat),
{
    let mut l = owned(label);
    push_decimal(&mut l, n as u64);
    l
}

/// Formats the summary section for human output.
pub fn format_summary_human(verdict: &Verdict) -> (r: String)
    ensures
        r@ == join_with(summary_lines(*verdict), '\n'),
{
    let s = &verdict.summary;
    let mut lines: Vec<String> = Vec::new();
    push_line(&mut lines, owned("Summary:"));
    push_line(&mut lines, labelled("  Total violations: ", s.core.total_violations));
    let ghost st = views(lines@);
    if s.core.new_violations > 0 {
        push_line(&mut lines, labelled("  New violations: ", s.core.new_violations));
    }
    let ghost st = views(lines@);
    if s.core.baseline_violations > 0 {
        push_line(&mut lines, labelled("  Baseline violations: ", s.core.baseline_violations));
    }
    let ghost st = views(lines@);
    if s.suppressed_violations > 0 {
        push_line(&mut lines, labelled("  Suppressed violations: ", s.suppressed_violations));
    }
    push_line(&mut lines, labelled("  Errors: ", s.error_violations));
    push_line(&mut lines, labelled("  Warnings: ", s.warning_violations));
    if s.core.stale_baseline_entries > 0 {
        push_line(&mut lines, labelled("  Stale baseline entries: ", s.core.stale_baseline_entries));
    }
    push_line(&mut lines, String::new());
    let mut status = owned("Status: ");
    push_str(
        &mut status,
        match verdict.status {
            VerdictStatus::Pass => "Pass",
            VerdictStatus::Fail => "Fail",
        },
    );
    push_line(&mut lines, status);
    let mut schema = owned("Verdict schema: ");
    push_str(&mut schema, verdict.verdict_schema.as_str());
    push_line(&mut lines, schema);
    assert(views(lines@) =~= summary_lines(*verdict));
    assert(views(lines@).skip(0) =~= views(lines@));
    join_strings(&lines, 0, '\n')
}

/// The lines of all violation blocks, each followed by an empty line.
pub open spec fn violation_blocks(vs: Seq<VerdictViolation>) -> Seq<Seq<char>>
    decreases vs.len(),
{
    if vs.len() == 0 {
        Seq::empty()
    } else {
        violation_blocks(vs.drop_last()).push(join_with(violation_block_lines(vs.last()), '\n')).push(
            Seq::empty(),
        )
    }
}

pub open spec fn edge_lines(verdict: Verdict) -> Seq<Seq<char>> {
    match verdict.edge_classification {
        Some(ec) => seq![
            Seq::empty(),
            "Edge classification:"@,
            "  Resolved: "@ + decimal(ec.resolved as nat) + "  Type-only: "@ + decimal(ec.type_only as nat)
                + "  External: "@ + decimal(ec.external as nat),
            "  Unresolved (literal): "@ + decimal(ec.unresolved_literal as nat) + "  Unresolved (dynamic): "@
                + decimal(ec.unresolved_dynamic as nat),
        ],
        None => Seq::empty(),
    }
}

pub open spec fn unresolved_line(e: UnresolvedEdge) -> Seq<char> {
    let location = match e.line {
        Some(line) => e.from@ + ":"@ + decimal(line as nat),
        None => e.from@,
    };
    "  "@ + location + " -> '"@ + e.specifier@ + "' ("@ + e.kind@ + ")"@
}

pub open spec fn unresolved_lines(verdict: Verdict) -> Seq<Seq<char>> {
    if verdict.unresolved_edges@.len() == 0 {
        Seq::empty()
    } else {
        seq![Seq::empty(), "Unresolved imports:"@] + verdict.unresolved_edges@.map_values(
            |e: UnresolvedEdge| unresolved_line(e),
        )
    }
}

/// All lines of the human rendering of a verdict.
pub open spec fn verdict_lines(verdict: Verdict) -> Seq<Seq<char>> {
    let body = if verdict.violations@.len() == 0 {
        seq!["✓ No violations found"@, Seq::empty()]
    } else {
        violation_blocks(verdict.violations@)
    };
    body.push(join_with(summary_lines(verdict), '\n')) + edge_lines(verdict) + unresolved_lines(verdict)
}

/// Formats a verdict for human-readable output: each violation with its
/// location, help and fingerprint, then the summary, edge classification and
/// unresolved imports.
pub fn format_verdict_human(verdict: &Verdict) -> (r: String)
    ensures
        r@ == join_with(verdict_lines(*verdict), '\n'),
{
    let mut lines: Vec<String> = Vec::new();
    if verdict.violations.len() == 0 {
        push_line(&mut lines, owned("✓ No violations found"));
        push_line(&mut lines, String::new());
    } else {
        let mut i: usize = 0;
        assert(views(lines@) =~= violation_blocks(verdict.violations@.take(0)));
        while i < verdict.violations.len()
            invariant
                i <= verdict.violations@.len(),
                views(lines@) == violation_blocks(verdict.violations@.take(i as int)),
            decreases verdict.violations@.len() - i,
        {
            assert(verdict.violations@.take(i + 1).drop_last() =~= verdict.violations@.take(i as int));
            let block = format_violation_human_line(&verdict.violations[i]);
            push_line(&mut lines, block);
            push_line(&mut lines, String::new());
            i = i + 1;
        }
        assert(verdict.violations@.take(i as int) =~= verdict.violations@);
    }
    let ghost body = views(lines@);
    push_line(&mut lines, format_summary_human(verdict));
    let ghost with_summary = views(lines@);
    match &verdict.edge_classification {
        Some(ec) => {
            push_line(&mut lines, String::new());
            push_line(&mut lines, owned("Edge classification:"));
            let mut l = labelled("  Resolved: ", ec.resolved);
            push_str(&mut l, "  Type-only: ");
            push_decimal(&mut l, ec.type_only as u64);
            push_str(&mut l, "  External: ");
            push_decimal(&mut l, ec.external as u64);
            push_line(&mut lines, l);
            let mut l2 = labelled("  Unresolved (literal): ", ec.unresolved_literal);
            push_str(&mut l2, "  Unresolved (dynamic): ");
            push_decimal(&mut l2, ec.unresolved_dynamic as u64);
            push_line(&mut lines, l2);
        },
        None => {},
    }
    assert(views(lines@) =~= with_summary + edge_lines(*verdict));
    let ghost with_edges = views(lines@);
    if verdict.unresolved_edges.len() > 0 {
        push_line(&mut lines, String::new());
        push_line(&mut lines, owned("Unresolved imports:"));
        let ghost head = views(lines@);
        let ghost edges = verdict.unresolved_edges@.map_values(|e: UnresolvedEdge| unresolved_line(e));
        let mut k: usize = 0;
        assert(views(lines@) =~= head + edges.take(0));
        while k < verdict.unresolved_edges.len()
            invariant
                k <= verdict.unresolved_edges@.len(),
                edges == verdict.unresolved_edges@.map_values(|e: UnresolvedEdge| unresolved_line(e)),
                views(lines@) == head + edges.take(k as int),
            decreases verdict.unresolved_edges@.len() - k,
        {
            let e = &verdict.unresolved_edges[k];
            let mut l = owned("  ");
            push_str(&mut l, e.from.as_str());
            match e.line {
                Some(line) => {
                    push_str(&mut l, ":");
                    push_decimal(&mut l, line as u64);
                },
                None => {},
            }
            push_str(&mut l, " -> '");
            push_str(&mut l, e.specifier.as_str());
            push_str(&mut l, "' (");
            push_str(&mut l, e.kind.as_str());
            push_str(&mut l, ")");
            assert(l@ =~= edges[k as int]);
            push_line(&mut lines, l);
            assert(edges.take(k + 1) =~= edges.take(k as int).push(edges[k as int]));
            k = k + 1;
        }
        assert(edges.take(k as int) =~= edges);
    }
    assert(views(lines@) =~= with_edges + unresolved_lines(*verdict));
    assert(views(lines@) =~= verdict_lines(*verdict));
    assert(views(lines@).skip(0) =~= views(lines@));
    join_strings(&lines, 0, '\n')
}

/// The full uppercase mapping of a character (`char::to_uppercase`), which
/// may be more than one character.
pub uninterp spec fn char_uppercase(c: char) -> Seq<char>;

/// `c.to_uppercase()`, collected into a string.
#[verifier::external_body]
fn uppercase_chars(c: char) -> (r: String)
    ensures
        r@ == char_uppercase(c),
{
    c.to_uppercase().to_string()
}

/// The SARIF short description of a rule: for `namespace.name` with both
/// parts non-empty (split at the first `.`), the namespace with its first
/// character uppercased, a space, the name and ` violation`; otherwise the
/// rule id followed by ` violation`.
pub open spec fn sarif_short_description(rule: Seq<char>) -> Seq<char> {
    let k = index_of(rule, '.');
    if k > 0 && k + 1 < rule.len() {
        char_uppercase(rule[0]) + rule.subrange(1, k) + seq![' '] + rule.subrange(k + 1, rule.len() as int)
            + " violation"@
    } else {
        rule + " violation"@
    }
}

pub fn sarif_rule_short_description(rule_id: &str) -> (r: String)
    ensures
        r@ == sarif_short_description(rule_id@),
{
    let n = rule_id.unicode_len();
    proof {
        lemma_index_of(rule_id@, '.');
    }
    if let Some(k) = find_char(rule_id, '.') {
        if k > 0 && k + 1 < n {
            let mut out = uppercase_chars(rule_id.get_char(0));
            push_str(&mut out, slice_chars(rule_id, 1, k));
            push_char(&mut out, ' ');
            push_str(&mut out, slice_chars(rule_id, k + 1, n));
            push_str(&mut out, " violation");
            return out;
        }
    }
    let mut out = owned(rule_id);
    push_str(&mut out, " violation");
    out
}

/// The SARIF level of a severity.
pub fn sarif_level(severity: Severity) -> (r: &'static str)
    ensures
        r@ == (match severity {
            Severity::Error => "error"@,
            Severity::Warning => "warning"@,
        }),
{
    match severity {
        Severity::Error => "error",
        Severity::Warning => "warning",
    }
}

/// A reporting rule of a SARIF log.
#[derive(Debug, Clone, PartialEq, Eq)]
pub struct SarifRuleDescriptor {
    pub id: String,
    pub short_description: String,
    /// Error when any violation of the rule is an error, warning otherwise.
    pub level: Severity,
}

/// Some violation among the first `n` has rule `rule` and is an error.
pub open spec fn rule_has_error_within(vs: Seq<VerdictViolation>, rule: Seq<char>, n: int) -> bool {
    exists|j: int| 0 <= j < n && #[trigger] vs[j].rule@ == rule && vs[j].severity == Severity::Error
}

/// Some violation among the first `n` has rule `rule`.
pub open spec fn rule_seen_within(vs: Seq<VerdictViolation>, rule: Seq<char>, n: int) -> bool {
    exists|j: int| 0 <= j < n && #[trigger] vs[j].rule@ == rule
}

/// The level of a rule in a SARIF log: error when any of its violations is an
/// error.
pub open spec fn sarif_rule_level(vs: Seq<VerdictViolation>, rule: Seq<char>) -> Severity {
    if rule_has_error_within(vs, rule, vs.len() as int) {
        Severity::Error
    } else {
        Severity::Warning
    }
}

/// The descriptors of `rules` are those of the first `n` violations: one per
/// distinct rule id, in strictly increasing id order, each with its level
/// among those violations and its short description.
pub open spec fn descriptors_of(vs: Seq<VerdictViolation>, d: Seq<SarifRuleDescriptor>, n: int) -> bool {
    &&& forall|a: int, b: int| 0 <= a < b < d.len() ==> seq_order(#[trigger] d[a].id@, #[trigger] d[b].id@) < 0
    &&& forall|k: int| 0 <= k < d.len() ==> rule_seen_within(vs, #[trigger] d[k].id@, n)
    &&& forall|j: int| #![trigger vs[j]] 0 <= j < n ==> exists|k: int| 0 <= k < d.len() && #[trigger] d[k].id@ == vs[j].rule@
    &&& forall|k: int|
        0 <= k < d.len() ==> (#[trigger] d[k]).level == (if rule_has_error_within(vs, d[k].id@, n) {
            Severity::Error
        } else {
            Severity::Warning
        })
    &&& forall|k: int| 0 <= k < d.len() ==> (#[trigger] d[k]).short_description@ == sarif_short_description(d[k].id@)
}

proof fn lemma_descriptor_raised(
    vs: Seq<VerdictViolation>,
    old_d: Seq<SarifRuleDescriptor>,
    new_d: Seq<SarifRuleDescriptor>,
    i: int,
    k: int,
)
    requires
        0 <= i < vs.len(),
        descriptors_of(vs, old_d, i),
        0 <= k < old_d.len(),
        old_d[k].id@ == vs[i].rule@,
        new_d.len() == old_d.len(),
        forall|kk: int| 0 <= kk < old_d.len() && kk != k ==> new_d[kk] == old_d[kk],
        new_d[k].id@ == old_d[k].id@,
        new_d[k].short_description@ == old_d[k].short_description@,
        new_d[k].level == (if vs[i].severity == Severity::Error {
            Severity::Error
        } else {
            old_d[k].level
        }),
    ensures
        descriptors_of(vs, new_d, i + 1),
{
    let rule = vs[i].rule@;
    assert forall|a: int, b: int| 0 <= a < b < new_d.len() implies seq_order(#[trigger] new_d[a].id@, #[trigger] new_d[b].id@) < 0 by {
        assert(new_d[a].id@ == old_d[a].id@);
        assert(new_d[b].id@ == old_d[b].id@);
        assert(seq_order(old_d[a].id@, old_d[b].id@) < 0);
    }
    assert forall|kk: int| 0 <= kk < new_d.len() implies rule_seen_within(vs, #[trigger] new_d[kk].id@, i + 1) by {
        assert(new_d[kk].id@ == old_d[kk].id@);
        assert(rule_seen_within(vs, old_d[kk].id@, i));
        let j = choose|j: int| 0 <= j < i && #[trigger] vs[j].rule@ == old_d[kk].id@;
        assert(vs[j].rule@ == new_d[kk].id@);
    }
    assert forall|j: int| #![trigger vs[j]] 0 <= j < i + 1 implies exists|kk: int| 0 <= kk < new_d.len() && #[trigger] new_d[kk].id@ == vs[j].rule@ by {
        if j == i {
            assert(new_d[k].id@ == vs[j].rule@);
        } else {
            let kk = choose|kk: int| 0 <= kk < old_d.len() && #[trigger] old_d[kk].id@ == vs[j].rule@;
            assert(new_d[kk].id@ == old_d[kk].id@);
        }
    }
    assert forall|kk: int| 0 <= kk < new_d.len() implies (#[trigger] new_d[kk]).level == (if rule_has_error_within(vs, new_d[kk].id@, i + 1) {
        Severity::Error
    } else {
        Severity::Warning
    }) by {
        assert(new_d[kk].id@ == old_d[kk].id@);
        assert(old_d[kk].level == (if rule_has_error_within(vs, old_d[kk].id@, i) {
            Severity::Error
        } else {
            Severity::Warning
        }));
        if new_d[kk].id@ == rule {
            if vs[i].severity == Severity::Error {
                assert(vs[i].rule@ == rule);
            }
            if rule_has_error_within(vs, rule, i + 1) && vs[i].severity != Severity::Error {
                let j = choose|j: int| 0 <= j < i + 1 && #[trigger] vs[j].rule@ == rule && vs[j].severity == Severity::Error;
                assert(j < i);
            }
            if kk != k {
                assert(seq_order(old_d[kk].id@, old_d[k].id@) != 0) by {
                    if kk < k {
                        assert(seq_order(old_d[kk].id@, old_d[k].id@) < 0);
                    } else {
                        assert(seq_order(old_d[k].id@, old_d[kk].id@) < 0);
                        lemma_seq_order_antisymmetric(old_d[k].id@, old_d[kk].id@);
                    }
                }
                lemma_seq_order_antisymmetric(old_d[kk].id@, old_d[k].id@);
            }
        } else {
            if rule_has_error_within(vs, new_d[kk].id@, i + 1) {
                let j = choose|j: int| 0 <= j < i + 1 && #[trigger] vs[j].rule@ == new_d[kk].id@ && vs[j].severity == Severity::Error;
                assert(j < i);
            }
        }
    }
    assert forall|kk: int| 0 <= kk < new_d.len() implies (#[trigger] new_d[kk]).short_description@ == sarif_short_description(new_d[kk].id@) by {
        assert(old_d[kk].short_description@ == sarif_short_description(old_d[kk].id@));
    }
}

#[verifier::spinoff_prover]
#[verifier::rlimit(80)]
proof fn lemma_descriptor_inserted(
    vs: Seq<VerdictViolation>,
    old_d: Seq<SarifRuleDescriptor>,
    d: SarifRuleDescriptor,
    i: int,
    k: int,
)
    requires
        0 <= i < vs.len(),
        descriptors_of(vs, old_d, i),
        0 <= k <= old_d.len(),
        forall|a: int| 0 <= a < k ==> seq_order(#[trigger] old_d[a].id@, vs[i].rule@) < 0,
        k < old_d.len() ==> seq_order(old_d[k].id@, vs[i].rule@) > 0,
        d.id@ == vs[i].rule@,
        d.level == vs[i].severity,
        d.short_description@ == sarif_short_description(d.id@),
    ensures
        descriptors_of(vs, old_d.insert(k, d), i + 1),
{
    let rule = vs[i].rule@;
    let new_d = old_d.insert(k, d);
    assert(new_d[k] == d);
    assert forall|kk: int| 0 <= kk < new_d.len() && kk != k implies new_d[kk] == old_d[if kk < k { kk } else { kk - 1 }] by {}
    // every old id differs from the new rule
    assert forall|o: int| 0 <= o < old_d.len() implies #[trigger] old_d[o].id@ != rule by {
        if o < k {
            lemma_seq_order_antisymmetric(old_d[o].id@, rule);
        } else {
            lemma_seq_order_antisymmetric(old_d[k].id@, rule);
            if o > k {
                assert(seq_order(old_d[k].id@, old_d[o].id@) < 0);
                lemma_seq_order_facts(rule, old_d[k].id@, old_d[o].id@);
                lemma_seq_order_antisymmetric(rule, old_d[k].id@);
            }
        }
    }
    assert forall|a: int, b: int| 0 <= a < b < new_d.len() implies seq_order(#[trigger] new_d[a].id@, #[trigger] new_d[b].id@) < 0 by {
        if b < k {
            assert(seq_order(old_d[a].id@, old_d[b].id@) < 0);
        } else if a < k && b == k {
        } else if a < k && b > k {
            assert(new_d[b] == old_d[b - 1]);
            lemma_seq_order_antisymmetric(old_d[k].id@, rule);
            if b - 1 > k {
                assert(seq_order(old_d[k].id@, old_d[b - 1].id@) < 0);
                lemma_seq_order_facts(rule, old_d[k].id@, old_d[b - 1].id@);
            }
            lemma_seq_order_facts(old_d[a].id@, rule, old_d[b - 1].id@);
            lemma_seq_order_antisymmetric(old_d[a].id@, old_d[b - 1].id@);
        } else if a == k {
            assert(new_d[b] == old_d[b - 1]);
            lemma_seq_order_antisymmetric(old_d[k].id@, rule);
            if b - 1 > k {
                assert(seq_order(old_d[k].id@, old_d[b - 1].id@) < 0);
                lemma_seq_order_facts(rule, old_d[k].id@, old_d[b - 1].id@);
                lemma_seq_order_antisymmetric(rule, old_d[b - 1].id@);
            }
        } else {
            assert(new_d[a] == old_d[a - 1]);
            assert(new_d[b] == old_d[b - 1]);
            assert(seq_order(old_d[a - 1].id@, old_d[b - 1].id@) < 0);
        }
    }
    assert forall|kk: int| 0 <= kk < new_d.len() implies rule_seen_within(vs, #[trigger] new_d[kk].id@, i + 1) by {
        if kk == k {
            assert(vs[i].rule@ == new_d[kk].id@);
        } else {
            let o = if kk < k { kk } else { kk - 1 };
            assert(new_d[kk] == old_d[o]);
            assert(rule_seen_within(vs, old_d[o].id@, i));
            let j = choose|j: int| 0 <= j < i && #[trigger] vs[j].rule@ == old_d[o].id@;
            assert(vs[j].rule@ == new_d[kk].id@);
        }
    }
    assert forall|j: int| #![trigger vs[j]] 0 <= j < i + 1 implies exists|kk: int| 0 <= kk < new_d.len() && #[trigger] new_d[kk].id@ == vs[j].rule@ by {
        if j == i {
            assert(new_d[k].id@ == vs[j].rule@);
        } else {
            let o = choose|o: int| 0 <= o < old_d.len() && #[trigger] old_d[o].id@ == vs[j].rule@;
            if o < k {
                assert(new_d[o] == old_d[o]);
            } else {
                assert(new_d[o + 1] == old_d[o]);
            }
        }
    }
    assert forall|kk: int| 0 <= kk < new_d.len() implies (#[trigger] new_d[kk]).level == (if rule_has_error_within(vs, new_d[kk].id@, i + 1) {
        Severity::Error
    } else {
        Severity::Warning
    }) by {
        if kk == k {
            if rule_has_error_within(vs, rule, i + 1) && vs[i].severity != Severity::Error {
                let j = choose|j: int| 0 <= j < i + 1 && #[trigger] vs[j].rule@ == rule && vs[j].severity == Severity::Error;
                assert(j < i);
                let o = choose|o: int| 0 <= o < old_d.len() && #[trigger] old_d[o].id@ == vs[j].rule@;
                assert(old_d[o].id@ != rule);
            }
            if vs[i].severity == Severity::Error {
                assert(vs[i].rule@ == rule);
            }
            if vs[i].severity != Severity::Error {
                assert(vs[i].severity == Severity::Warning);
            }
        } else {
            let o = if kk < k { kk } else { kk - 1 };
            assert(new_d[kk] == old_d[o]);
            assert(old_d[o].id@ != rule);
            if rule_has_error_within(vs, old_d[o].id@, i + 1) {
                let j = choose|j: int| 0 <= j < i + 1 && #[trigger] vs[j].rule@ == old_d[o].id@ && vs[j].severity == Severity::Error;
                assert(j < i);
            }
        }
    }
    assert forall|kk: int| 0 <= kk < new_d.len() implies (#[trigger] new_d[kk]).short_description@ == sarif_short_description(new_d[kk].id@) by {
        if kk != k {
            let o = if kk < k { kk } else { kk - 1 };
            assert(new_d[kk] == old_d[o]);
        }
    }
}

/// Records the rule of the violation at `i` among the descriptors.
fn add_rule_descriptor(out: &mut Vec<SarifRuleDescriptor>, violations: &[VerdictViolation], i: usize)
    requires
        i < violations@.len(),
        descriptors_of(violations@, old(out)@, i as int),
    ensures
        descriptors_of(violations@, final(out)@, i + 1),
{
    let v = &violations[i];
    let ghost rule = v.rule@;
    let ghost old_out = out@;
    let mut k: usize = 0;
    while k < out.len()
        invariant
            k <= out@.len(),
            out@ == old_out,
            rule == v.rule@,
            forall|a: int| 0 <= a < k ==> seq_order(#[trigger] out@[a].id@, rule) < 0,
        ensures
            k <= out@.len(),
            out@ == old_out,
            forall|a: int| 0 <= a < k ==> seq_order(#[trigger] out@[a].id@, rule) < 0,
            k < out@.len() ==> seq_order(out@[k as int].id@, rule) >= 0,
        decreases out@.len() - k,
    {
        if str_order(out[k].id.as_str(), v.rule.as_str()) >= 0 {
            break;
        }
        k = k + 1;
    }
    let same = k < out.len() && str_eq(out[k].id.as_str(), v.rule.as_str());
    if same {
        if v.severity == Severity::Error {
            let updated = SarifRuleDescriptor {
                id: owned(out[k].id.as_str()),
                short_description: owned(out[k].short_description.as_str()),
                level: Severity::Error,
            };
            out.set(k, updated);
        }
        proof {
            lemma_descriptor_raised(violations@, old_out, out@, i as int, k as int);
        }
    } else {
        let d = SarifRuleDescriptor {
            id: owned(v.rule.as_str()),
            short_description: sarif_rule_short_description(v.rule.as_str()),
            level: v.severity,
        };
        proof {
            if k < old_out.len() {
                lemma_seq_order_antisymmetric(old_out[k as int].id@, rule);
            }
        }
        out.insert(k, d);
        proof {
            lemma_descriptor_inserted(violations@, old_out, d, i as int, k as int);
        }
    }
}

/// The SARIF reporting rules of a verdict's violations: one per distinct rule
/// id, sorted by id, with the error level when any of that rule's violations
/// is an error.
pub fn sarif_rule_descriptors(violations: &[VerdictViolation]) -> (r: Vec<SarifRuleDescriptor>)
    ensures
        descriptors_of(violations@, r@, violations@.len() as int),
        forall|k: int| 0 <= k < r@.len() ==> (#[trigger] r@[k]).level == sarif_rule_level(violations@, r@[k].id@),
{
    let mut out: Vec<SarifRuleDescriptor> = Vec::new();
    let mut i: usize = 0;
    while i < violations.len()
        invariant
            i <= violations@.len(),
            descriptors_of(violations@, out@, i as int),
        decreases violations@.len() - i,
    {
        add_rule_descriptor(&mut out, violations, i);
        i = i + 1;
    }
    out
}

} // verus!
