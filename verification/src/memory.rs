//! Parsing a process-status text for its resident-set size.
//!
//! The status text is a sequence of newline-separated lines; the line whose
//! first bytes are `VmRSS:` carries the resident-set size as its second
//! whitespace-separated field, in kilobytes. Reading the text from the OS is
//! the binary's business; the parse is verified here, over the raw bytes.

use vstd::prelude::*;

verus! {

/// Why a status text yields no resident-set size.
#[derive(Clone, Copy, Debug, PartialEq, Eq, Structural)]
pub enum MemoryError {
    /// No line begins with `VmRSS:`.
    NotFound,
    /// The `VmRSS:` line's second field is not a kilobyte count.
    MalformedValue,
}

/// Whether a byte separates fields: a space or a tab.
pub open spec fn spec_is_field_sep(b: u8) -> bool {
    b == 0x20 || b == 0x09
}

/// Whether a byte is a decimal digit.
pub open spec fn spec_is_digit(b: u8) -> bool {
    0x30 <= b <= 0x39
}

/// The length of the first line: the bytes before the first newline.
pub open spec fn spec_line_len(s: Seq<u8>) -> nat
    decreases s.len(),
{
    if s.len() == 0 || s.first() == 0x0a {
        0
    } else {
        1 + spec_line_len(s.drop_first())
    }
}

/// The bytes `VmRSS:`.
pub open spec fn spec_vmrss_prefix() -> Seq<u8> {
    seq![0x56u8, 0x6du8, 0x52u8, 0x53u8, 0x53u8, 0x3au8]
}

/// The first line beginning with `VmRSS:`, if any.
pub open spec fn spec_find_vmrss_line(s: Seq<u8>) -> Option<Seq<u8>>
    decreases s.len(),
{
    if s.len() == 0 {
        None
    } else {
        let line = s.take(spec_line_len(s) as int);
        if spec_vmrss_prefix().is_prefix_of(line) {
            Some(line)
        } else if spec_line_len(s) == s.len() {
            None
        } else {
            proof {
                lemma_line_len_bound(s);
            }
            spec_find_vmrss_line(s.skip(spec_line_len(s) as int + 1))
        }
    }
}

/// A line is never longer than the text.
pub proof fn lemma_line_len_bound(s: Seq<u8>)
    ensures
        spec_line_len(s) <= s.len(),
    decreases s.len(),
{
    if !(s.len() == 0 || s.first() == 0x0a) {
        lemma_line_len_bound(s.drop_first());
    }
}

/// The length of the first field: the bytes before the first separator.
pub open spec fn spec_field_len(s: Seq<u8>) -> nat
    decreases s.len(),
{
    if s.len() == 0 || spec_is_field_sep(s.first()) {
        0
    } else {
        1 + spec_field_len(s.drop_first())
    }
}

/// The length of the leading run of separators.
pub open spec fn spec_sep_len(s: Seq<u8>) -> nat
    decreases s.len(),
{
    if s.len() == 0 || !spec_is_field_sep(s.first()) {
        0
    } else {
        1 + spec_sep_len(s.drop_first())
    }
}

/// The decimal value of a digit run.
pub open spec fn spec_digits_val(s: Seq<u8>) -> int
    decreases s.len(),
{
    if s.len() == 0 {
        0
    } else {
        spec_digits_val(s.drop_last()) * 10 + (s.last() - 0x30)
    }
}

/// The second whitespace-separated field of a line, as a kilobyte count:
/// present exactly when that field is a non-empty run of digits whose value
/// fits a 64-bit integer.
pub open spec fn spec_line_kb(line: Seq<u8>) -> Option<int> {
    let after_first = line.skip(spec_field_len(line) as int);
    let field_start = after_first.skip(spec_sep_len(after_first) as int);
    let field = field_start.take(spec_field_len(field_start) as int);
    if field.len() > 0 && (forall|i: int| 0 <= i < field.len() ==> spec_is_digit(
        #[trigger] field[i],
    )) && spec_digits_val(field) <= u64::MAX {
        Some(spec_digits_val(field))
    } else {
        None
    }
}

/// The resident-set size of a status text, in megabytes: the kilobyte count
/// of the `VmRSS:` line, divided by 1024. Fails with `NotFound` when no line
/// begins with `VmRSS:`, and with `MalformedValue` when that line's second
/// field is not a kilobyte count.
pub fn parse_vm_rss_mb(status_text: &Vec<u8>) -> (r: Result<u64, MemoryError>)
    ensures
        match r {
            Ok(mb) => (spec_find_vmrss_line(status_text@) matches Some(line)
                && spec_line_kb(line) matches Some(kb) && mb == kb / 1024),
            Err(e) => match e {
                MemoryError::NotFound => spec_find_vmrss_line(status_text@) is None,
                MemoryError::MalformedValue => (spec_find_vmrss_line(status_text@) matches Some(
                    line,
                ) && spec_line_kb(line) is None),
            },
        },
{
    proof {
        vstd::std_specs::vec::axiom_spec_len(status_text);
    }
    let text_len = status_text.len();
    proof {
        assert(status_text@.skip(0) =~= status_text@);
    }
    let mut pos: usize = 0;
    loop
        invariant
            pos <= text_len,
            text_len == status_text@.len(),
            spec_find_vmrss_line(status_text@) == spec_find_vmrss_line(
                status_text@.skip(pos as int),
            ),
        decreases text_len - pos,
    {
        let ghost rest = status_text@.skip(pos as int);
        if pos >= text_len {
            return Err(MemoryError::NotFound);
        }
        let line_end = scan_line_end(status_text, pos);
        proof {
            lemma_scan_matches_line_len(status_text@, pos as int, line_end as int);
            assert(rest.take(spec_line_len(rest) as int) =~= status_text@.subrange(
                pos as int,
                line_end as int,
            ));
        }
        if line_end - pos >= 6 && status_text[pos] == 0x56 && status_text[pos + 1] == 0x6d
            && status_text[pos + 2] == 0x52 && status_text[pos + 3] == 0x53 && status_text[pos
            + 4] == 0x53 && status_text[pos + 5] == 0x3a {
            proof {
                assert(spec_vmrss_prefix().is_prefix_of(rest.take(spec_line_len(rest) as int)));
            }
            return parse_line_kb_mb(status_text, pos, line_end);
        }
        proof {
            let line = rest.take(spec_line_len(rest) as int);
            assert(!spec_vmrss_prefix().is_prefix_of(line)) by {
                if spec_vmrss_prefix().is_prefix_of(line) {
                    assert(line.len() >= 6);
                    assert(line[0] == 0x56 && line[1] == 0x6d && line[2] == 0x52 && line[3] == 0x53
                        && line[4] == 0x53 && line[5] == 0x3a);
                }
            }
        }
        if line_end >= text_len {
            proof {
                assert(spec_line_len(rest) == rest.len());
            }
            return Err(MemoryError::NotFound);
        }
        proof {
            assert(status_text@.skip(pos as int).skip(spec_line_len(rest) as int + 1)
                =~= status_text@.skip(line_end + 1));
        }
        pos = line_end + 1;
    }
}

/// Scan to the end of the line that starts at `pos`.
fn scan_line_end(text: &Vec<u8>, pos: usize) -> (r: usize)
    requires
        pos <= text@.len(),
    ensures
        pos <= r <= text@.len(),
        forall|j: int| pos <= j < r ==> text@[j] != 0x0a,
        r < text@.len() ==> text@[r as int] == 0x0a,
{
    proof {
        vstd::std_specs::vec::axiom_spec_len(text);
    }
    let mut i = pos;
    while i < text.len()
        invariant
            pos <= i <= text@.len(),
            forall|j: int| pos <= j < i ==> text@[j] != 0x0a,
        decreases text@.len() - i,
    {
        if text[i] == 0x0a {
            return i;
        }
        i = i + 1;
    }
    i
}

/// A newline-free run up to `line_end` is exactly the first line.
proof fn lemma_scan_matches_line_len(s: Seq<u8>, pos: int, line_end: int)
    requires
        0 <= pos <= line_end <= s.len(),
        forall|j: int| pos <= j < line_end ==> s[j] != 0x0a,
        line_end < s.len() ==> s[line_end] == 0x0a,
    ensures
        spec_line_len(s.skip(pos)) == line_end - pos,
    decreases line_end - pos,
{
    let rest = s.skip(pos);
    if pos == line_end {
        if rest.len() > 0 {
            assert(rest.first() == s[pos]);
        }
    } else {
        assert(rest.first() == s[pos]);
        assert(rest.drop_first() =~= s.skip(pos + 1));
        lemma_scan_matches_line_len(s, pos + 1, line_end);
    }
}

/// Parse the kilobyte count of the line `[start, line_end)` — known to begin
/// with the `VmRSS:` prefix — and return it in megabytes.
#[verifier::rlimit(100)]
#[verifier::spinoff_prover]
#[verifier::loop_isolation(false)]
fn parse_line_kb_mb(text: &Vec<u8>, start: usize, line_end: usize) -> (r: Result<
    u64,
    MemoryError,
>)
    requires
        start <= line_end <= text@.len(),
    ensures
        ({
            let line = text@.subrange(start as int, line_end as int);
            match r {
                Ok(mb) => (spec_line_kb(line) matches Some(kb) && mb == kb / 1024),
                Err(e) => e == MemoryError::MalformedValue && spec_line_kb(line) is None,
            }
        }),
{
    proof {
        vstd::std_specs::vec::axiom_spec_len(text);
    }
    let ghost line = text@.subrange(start as int, line_end as int);
    // Skip the first field.
    let mut i = start;
    while i < line_end && !(text[i] == 0x20 || text[i] == 0x09)
        invariant
            start <= i <= line_end <= text@.len(),
            forall|j: int| start <= j < i ==> !spec_is_field_sep(text@[j]),
        decreases line_end - i,
    {
        i = i + 1;
    }
    proof {
        assert forall|j: int| 0 <= j < i - start implies !(#[trigger] spec_is_field_sep(
            line[j],
        )) by {
            assert(line[j] == text@[start + j]);
        }
        if i - start < line.len() {
            assert(line[i - start] == text@[i as int]);
        }
        lemma_scan_matches_field_len(line, 0, i - start);
        assert(line.skip(0) =~= line);
        assert(line.skip(spec_field_len(line) as int) =~= text@.subrange(
            i as int,
            line_end as int,
        ));
    }
    let ghost after_first = line.skip(spec_field_len(line) as int);
    // Skip the separators.
    let field_rel_start = i;
    let mut k = i;
    while k < line_end && (text[k] == 0x20 || text[k] == 0x09)
        invariant
            field_rel_start <= k <= line_end <= text@.len(),
            forall|j: int| field_rel_start <= j < k ==> spec_is_field_sep(text@[j]),
        decreases line_end - k,
    {
        k = k + 1;
    }
    proof {
        assert forall|j: int| 0 <= j < k - field_rel_start implies #[trigger] spec_is_field_sep(
            after_first[j],
        ) by {
            assert(after_first[j] == text@[field_rel_start + j]);
        }
        if k - field_rel_start < after_first.len() {
            assert(after_first[k - field_rel_start] == text@[k as int]);
        }
        lemma_scan_matches_sep_len(after_first, 0, k - field_rel_start);
        assert(after_first.skip(0) =~= after_first);
        assert(after_first.skip(spec_sep_len(after_first) as int) =~= text@.subrange(
            k as int,
            line_end as int,
        ));
    }
    let ghost field_start_seq = after_first.skip(spec_sep_len(after_first) as int);
    // Take the second field.
    let field_start = k;
    let mut m = k;
    while m < line_end && !(text[m] == 0x20 || text[m] == 0x09)
        invariant
            field_start <= m <= line_end <= text@.len(),
            forall|j: int| field_start <= j < m ==> !spec_is_field_sep(text@[j]),
        decreases line_end - m,
    {
        m = m + 1;
    }
    proof {
        assert forall|j: int| 0 <= j < m - field_start implies !(#[trigger] spec_is_field_sep(
            field_start_seq[j],
        )) by {
            assert(field_start_seq[j] == text@[field_start + j]);
        }
        if m - field_start < field_start_seq.len() {
            assert(field_start_seq[m - field_start] == text@[m as int]);
        }
        lemma_scan_matches_field_len(field_start_seq, 0, m - field_start);
        assert(field_start_seq.skip(0) =~= field_start_seq);
        assert(field_start_seq.take(spec_field_len(field_start_seq) as int) =~= text@.subrange(
            field_start as int,
            m as int,
        ));
    }
    let ghost field = field_start_seq.take(spec_field_len(field_start_seq) as int);
    if m == field_start {
        return Err(MemoryError::MalformedValue);
    }
    // Parse the digits.
    let mut value: u64 = 0;
    let mut d = field_start;
    while d < m
        invariant
            field_start <= d <= m <= line_end <= text@.len(),
            field == text@.subrange(field_start as int, m as int),
            forall|j: int| field_start <= j < d ==> spec_is_digit(text@[j]),
            value == spec_digits_val(field.take(d - field_start)),
            value <= u64::MAX,
        decreases m - d,
    {
        let b = text[d];
        if !(0x30 <= b && b <= 0x39) {
            proof {
                assert(!spec_is_digit(field[d - field_start]));
            }
            return Err(MemoryError::MalformedValue);
        }
        let digit = (b - 0x30) as u64;
        if value > (u64::MAX - digit) / 10 {
            proof {
                lemma_digits_val_grows(field, d + 1 - field_start);
                assert(field.take(d + 1 - field_start).drop_last() =~= field.take(
                    d - field_start,
                ));
                assert(spec_digits_val(field.take(d + 1 - field_start)) > u64::MAX)
                    by (nonlinear_arith)
                    requires
                        spec_digits_val(field.take(d + 1 - field_start)) == spec_digits_val(
                            field.take(d - field_start),
                        ) * 10 + (field[d - field_start] - 0x30),
                        field[d - field_start] == b,
                        spec_digits_val(field.take(d - field_start)) == value,
                        value > (u64::MAX - (b - 0x30)) / 10,
                        0x30 <= b <= 0x39,
                ;
                if forall|j: int| 0 <= j < field.len() ==> spec_is_digit(#[trigger] field[j]) {
                    lemma_digits_val_monotone(field, d + 1 - field_start);
                }
            }
            return Err(MemoryError::MalformedValue);
        }
        proof {
            assert(value * 10 + digit <= u64::MAX) by (nonlinear_arith)
                requires
                    value <= (u64::MAX - digit) / 10,
                    digit <= 9,
            ;
            assert(field.take(d + 1 - field_start).drop_last() =~= field.take(d - field_start));
        }
        value = value * 10 + digit;
        d = d + 1;
    }
    proof {
        assert(field.take(m - field_start) =~= field);
    }
    Ok(value / 1024)
}

/// A separator-free run is exactly the first field.
proof fn lemma_scan_matches_field_len(s: Seq<u8>, pos: int, field_end: int)
    requires
        0 <= pos <= field_end <= s.len(),
        forall|j: int| pos <= j < field_end ==> !(#[trigger] spec_is_field_sep(s[j])),
        field_end < s.len() ==> spec_is_field_sep(s[field_end]),
    ensures
        spec_field_len(s.skip(pos)) == field_end - pos,
    decreases field_end - pos,
{
    let rest = s.skip(pos);
    if pos == field_end {
        if rest.len() > 0 {
            assert(rest.first() == s[pos]);
        }
    } else {
        assert(rest.first() == s[pos]);
        assert(rest.drop_first() =~= s.skip(pos + 1));
        lemma_scan_matches_field_len(s, pos + 1, field_end);
    }
}

/// A separator run is exactly the leading separators.
proof fn lemma_scan_matches_sep_len(s: Seq<u8>, pos: int, sep_end: int)
    requires
        0 <= pos <= sep_end <= s.len(),
        forall|j: int| pos <= j < sep_end ==> #[trigger] spec_is_field_sep(s[j]),
        sep_end < s.len() ==> !spec_is_field_sep(s[sep_end]),
    ensures
        spec_sep_len(s.skip(pos)) == sep_end - pos,
    decreases sep_end - pos,
{
    let rest = s.skip(pos);
    if pos == sep_end {
        if rest.len() > 0 {
            assert(rest.first() == s[pos]);
        }
    } else {
        assert(rest.first() == s[pos]);
        assert(rest.drop_first() =~= s.skip(pos + 1));
        lemma_scan_matches_sep_len(s, pos + 1, sep_end);
    }
}

/// A run of digits has a non-negative value.
proof fn lemma_digits_val_nonneg(field: Seq<u8>)
    requires
        forall|j: int| 0 <= j < field.len() ==> spec_is_digit(#[trigger] field[j]),
    ensures
        spec_digits_val(field) >= 0,
    decreases field.len(),
{
    if field.len() > 0 {
        assert forall|j: int| 0 <= j < field.drop_last().len() implies spec_is_digit(
            #[trigger] field.drop_last()[j],
        ) by {
            assert(field.drop_last()[j] == field[j]);
        }
        lemma_digits_val_nonneg(field.drop_last());
        assert(spec_digits_val(field) >= 0) by (nonlinear_arith)
            requires
                spec_digits_val(field) == spec_digits_val(field.drop_last()) * 10 + (field.last()
                    - 0x30),
                spec_digits_val(field.drop_last()) >= 0,
                spec_is_digit(field.last()),
        ;
    }
}

/// A run of digits is worth at least any of its prefixes.
proof fn lemma_digits_val_monotone(field: Seq<u8>, k: int)
    requires
        0 <= k <= field.len(),
        forall|j: int| 0 <= j < field.len() ==> spec_is_digit(#[trigger] field[j]),
    ensures
        spec_digits_val(field) >= spec_digits_val(field.take(k)),
    decreases field.len() - k,
{
    if k == field.len() {
        assert(field.take(k) =~= field);
    } else {
        lemma_digits_val_grows(field, k + 1);
        assert forall|j: int| 0 <= j < field.take(k).len() implies spec_is_digit(
            #[trigger] field.take(k)[j],
        ) by {
            assert(field.take(k)[j] == field[j]);
        }
        lemma_digits_val_nonneg(field.take(k));
        assert(spec_digits_val(field.take(k + 1)) >= spec_digits_val(field.take(k)))
            by (nonlinear_arith)
            requires
                spec_digits_val(field.take(k + 1)) == spec_digits_val(field.take(k)) * 10 + (
                field[k] - 0x30),
                spec_digits_val(field.take(k)) >= 0,
                spec_is_digit(field[k]),
        ;
        lemma_digits_val_monotone(field, k + 1);
    }
}

/// A longer digit prefix never has a smaller value.
proof fn lemma_digits_val_grows(field: Seq<u8>, k: int)
    requires
        0 < k <= field.len(),
    ensures
        spec_digits_val(field.take(k)) == spec_digits_val(field.take(k - 1)) * 10 + (field[k - 1]
            - 0x30),
{
    assert(field.take(k).drop_last() =~= field.take(k - 1));
    assert(field.take(k).last() == field[k - 1]);
}

} // verus!
