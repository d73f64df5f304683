//! Export manifest handling: stripping comment lines and parsing the
//! module-definition export grammar into export descriptors.
//!
//! A manifest is plain text with one export entry per line, written
//! `symbol_name [@ordinal] [NONAME]`. Lines whose first non-blank
//! character is `;` are comments and are removed before parsing.

use vstd::prelude::*;

verus! {

/// ASCII whitespace: the characters that separate tokens within a line
/// and that may precede a comment marker.
pub open spec fn is_line_ws(c: char) -> bool {
    c == ' ' || c == '\t' || c == '\n' || c == '\r' || c == '\u{000C}'
}

/// Index one past the first `'\n'` at or after `i`, or the length of `s`
/// when no newline follows: the exclusive end of the line starting at `i`.
pub open spec fn line_end_from(s: Seq<char>, i: int) -> int
    decreases s.len() - i,
{
    if i < 0 || i >= s.len() {
        s.len() as int
    } else if s[i] == '\n' {
        i + 1
    } else {
        line_end_from(s, i + 1)
    }
}

/// First index at or after `i` holding a non-whitespace character, or the
/// length of `s` when the rest is blank.
pub open spec fn skip_ws_from(s: Seq<char>, i: int) -> int
    decreases s.len() - i,
{
    if i < 0 || i >= s.len() {
        s.len() as int
    } else if is_line_ws(s[i]) {
        skip_ws_from(s, i + 1)
    } else {
        i
    }
}

/// A comment line: its first non-blank character is `;`.
pub open spec fn is_comment_line(l: Seq<char>) -> bool {
    let k = skip_ws_from(l, 0);
    k < l.len() && l[k] == ';'
}

/// The text of `s` from position `i` on with every comment line removed;
/// kept lines are byte-for-byte unchanged, including their terminators.
pub open spec fn strip_from(s: Seq<char>, i: int) -> Seq<char>
    decreases s.len() - i,
    via strip_from_dec
{
    if i < 0 || i >= s.len() {
        Seq::empty()
    } else {
        let e = line_end_from(s, i);
        let l = s.subrange(i, e);
        (if is_comment_line(l) {
            Seq::<char>::empty()
        } else {
            l
        }) + strip_from(s, e)
    }
}

#[via_fn]
proof fn strip_from_dec(s: Seq<char>, i: int) {
    if 0 <= i && i < s.len() {
        lemma_line_end_from_bounds(s, i);
    }
}

/// What `strip_comments` returns: the whole text with comment lines removed.
pub open spec fn spec_strip(s: Seq<char>) -> Seq<char> {
    strip_from(s, 0)
}

/// Position and content facts about `line_end_from`: it lies in `[i, s.len()]`,
/// moves strictly forward on a nonempty rest, no newline occurs strictly
/// before the terminator, and when a terminator exists it is a newline.
pub proof fn lemma_line_end_from_bounds(s: Seq<char>, i: int)
    requires
        0 <= i <= s.len(),
    ensures
        i <= line_end_from(s, i) <= s.len(),
        i < s.len() ==> i < line_end_from(s, i),
        forall|k: int| i <= k < line_end_from(s, i) - 1 ==> s[k] != '\n',
        line_end_from(s, i) < s.len() ==> s[line_end_from(s, i) - 1] == '\n',
    decreases s.len() - i,
{
    if i < s.len() && s[i] != '\n' {
        lemma_line_end_from_bounds(s, i + 1);
    }
}

/// `line_end_from` is determined by the newline layout: if no newline occurs
/// in `[i, e - 1)` and `e` is either the end of text or just past a newline,
/// then `e` is the line end.
pub proof fn lemma_line_end_from_determined(s: Seq<char>, i: int, e: int)
    requires
        0 <= i <= e <= s.len(),
        i < e || i == s.len(),
        forall|k: int| i <= k < e - 1 ==> s[k] != '\n',
        e < s.len() ==> e > i && s[e - 1] == '\n',
        e == s.len() ==> (e == i || s[e - 1] == '\n' || forall|k: int| i <= k < e ==> s[k] != '\n'),
    ensures
        line_end_from(s, i) == e,
    decreases e - i,
{
    if i < s.len() && s[i] != '\n' {
        lemma_line_end_from_determined(s, i + 1, e);
    }
}

/// Line ends only shift with their origin: finding the end of the line of a
/// suffix equals finding it in the whole text and rebasing.
proof fn lemma_line_end_from_shift(s: Seq<char>, i: int)
    requires
        0 <= i <= s.len(),
    ensures
        line_end_from(s.skip(i), 0) == line_end_from(s, i) - i,
{
    let e = line_end_from(s, i);
    lemma_line_end_from_bounds(s, i);
    if i == s.len() {
        assert(s.skip(i).len() == 0);
    } else {
        lemma_line_end_from_determined(s.skip(i), 0, e - i);
    }
}

/// Stripping a suffix in place equals stripping the suffix as its own text.
proof fn lemma_strip_from_shift(s: Seq<char>, i: int)
    requires
        0 <= i <= s.len(),
    ensures
        strip_from(s, i) == spec_strip(s.skip(i)),
    decreases s.len() - i,
{
    if i == s.len() {
        assert(s.skip(i).len() == 0);
    } else {
        let e = line_end_from(s, i);
        lemma_line_end_from_bounds(s, i);
        lemma_line_end_from_shift(s, i);
        assert(s.skip(i).subrange(0, e - i) =~= s.subrange(i, e));
        lemma_strip_from_shift(s, e);
        assert(s.skip(i).skip(e - i) =~= s.skip(e));
        lemma_strip_from_shift(s.skip(i), e - i);
    }
}

/// Comment-stripping is idempotent: stripping already-stripped text changes
/// nothing, whatever the input was.
pub proof fn lemma_strip_idempotent(s: Seq<char>)
    ensures
        spec_strip(spec_strip(s)) == spec_strip(s),
    decreases s.len(),
{
    if s.len() == 0 {
    } else {
        let e = line_end_from(s, 0);
        lemma_line_end_from_bounds(s, 0);
        let l = s.subrange(0, e);
        let rest = s.skip(e);
        lemma_strip_from_shift(s, e);
        let t = spec_strip(rest);
        lemma_strip_idempotent(rest);
        if is_comment_line(l) {
            assert(spec_strip(s) =~= t);
        } else {
            assert(spec_strip(s) == l + t);
            if e == s.len() {
                assert(rest.len() == 0);
                assert(t.len() == 0);
                assert(l + t =~= s);
            } else {
                assert(s[e - 1] == '\n');
                let lt = l + t;
                assert(forall|k: int| 0 <= k < e ==> lt[k] == s[k]);
                lemma_line_end_from_determined(lt, 0, e);
                assert(lt.subrange(0, e) =~= l);
                lemma_strip_from_shift(lt, e);
                assert(lt.skip(e) =~= t);
                assert(spec_strip(lt) == l + spec_strip(t));
                assert(spec_strip(spec_strip(s)) == l + t);
            }
        }
    }
}

/// No line of `s`, from position `i` on, is a comment line.
pub open spec fn comment_free_from(s: Seq<char>, i: int) -> bool
    decreases s.len() - i,
    via comment_free_from_dec
{
    if i < 0 || i >= s.len() {
        true
    } else {
        let e = line_end_from(s, i);
        !is_comment_line(s.subrange(i, e)) && comment_free_from(s, e)
    }
}

#[via_fn]
proof fn comment_free_from_dec(s: Seq<char>, i: int) {
    if 0 <= i && i < s.len() {
        lemma_line_end_from_bounds(s, i);
    }
}

/// No line of `s` is a comment line.
pub open spec fn comment_free(s: Seq<char>) -> bool {
    comment_free_from(s, 0)
}

proof fn lemma_strip_from_comment_free(s: Seq<char>, i: int)
    requires
        0 <= i <= s.len(),
        comment_free_from(s, i),
    ensures
        strip_from(s, i) == s.skip(i),
    decreases s.len() - i,
{
    if i == s.len() {
        assert(s.skip(i) =~= Seq::<char>::empty());
    } else {
        let e = line_end_from(s, i);
        lemma_line_end_from_bounds(s, i);
        lemma_strip_from_comment_free(s, e);
        assert(s.subrange(i, e) + s.skip(e) =~= s.skip(i));
    }
}

/// Stripping text that holds no comment line returns it identically,
/// in particular in the same order.
pub proof fn lemma_strip_comment_free_identity(s: Seq<char>)
    requires
        comment_free(s),
    ensures
        spec_strip(s) == s,
{
    lemma_strip_from_comment_free(s, 0);
    assert(s.skip(0) =~= s);
}

/// Whether `c` is one of the manifest's separator characters.
fn is_ws_char(c: char) -> (b: bool)
    ensures
        b == is_line_ws(c),
{
    c == ' ' || c == '\t' || c == '\n' || c == '\r' || c == '\u{000C}'
}

/// Whether the first non-blank character of `line` is `;`.
fn line_is_comment(line: &str) -> (b: bool)
    ensures
        b == is_comment_line(line@),
{
    let n = line.unicode_len();
    let mut k: usize = 0;
    while k < n && is_ws_char(line.get_char(k))
        invariant
            n == line@.len(),
            k <= n,
            skip_ws_from(line@, 0) == skip_ws_from(line@, k as int),
        decreases n - k,
    {
        k += 1;
    }
    if k < n {
        line.get_char(k) == ';'
    } else {
        false
    }
}

/// How an export is reached at run time: by its symbol name, or only by
/// its numeric ordinal (the manifest marks the latter `NONAME`).
#[derive(Clone, Copy, PartialEq, Eq, Structural, Debug)]
pub enum ExportKind {
    Named,
    OrdinalOnly,
}

/// One export entry of a manifest, in manifest order.
#[derive(Clone, Debug, PartialEq)]
pub struct ExportDescriptor {
    pub name: String,
    pub kind: ExportKind,
    pub ordinal: Option<u16>,
}

/// Mathematical model of an export descriptor.
pub struct ExportSpec {
    pub name: Seq<char>,
    pub kind: ExportKind,
    pub ordinal: Option<u16>,
}

impl View for ExportDescriptor {
    type V = ExportSpec;

    open spec fn view(&self) -> ExportSpec {
        ExportSpec { name: self.name@, kind: self.kind, ordinal: self.ordinal }
    }
}

/// A descriptor's invariant: an ordinal-only export always carries its ordinal.
pub open spec fn desc_wf(d: ExportSpec) -> bool {
    d.kind == ExportKind::OrdinalOnly ==> d.ordinal is Some
}

/// The models of a sequence of descriptors.
pub open spec fn descs_view(v: Seq<ExportDescriptor>) -> Seq<ExportSpec> {
    v.map_values(|d: ExportDescriptor| d@)
}

/// What one manifest line means: nothing, a grammar violation, or one entry.
pub enum LineParse {
    Blank,
    Bad,
    Entry(ExportSpec),
}

/// End of the token starting at `i`: the first index at or after `i` holding
/// whitespace, or the length of `s`.
pub open spec fn tok_end_from(s: Seq<char>, i: int) -> int
    decreases s.len() - i,
{
    if i < 0 || i >= s.len() {
        s.len() as int
    } else if is_line_ws(s[i]) {
        i
    } else {
        tok_end_from(s, i + 1)
    }
}

/// A decimal digit.
pub open spec fn is_digit(c: char) -> bool {
    '0' <= c && c <= '9'
}

/// Numeric value of a digit character.
pub open spec fn digit_val(c: char) -> int {
    c as int - '0' as int
}

/// Decimal value of an ordinal token's digits; index 0 holds the `@` marker.
pub open spec fn ord_digits_val(t: Seq<char>) -> int
    decreases t.len(),
{
    if t.len() <= 1 {
        0
    } else {
        ord_digits_val(t.drop_last()) * 10 + digit_val(t.last())
    }
}

/// A well-formed ordinal token: `@` followed by at least one digit, with a
/// value that fits an export ordinal.
pub open spec fn is_ordinal_tok(t: Seq<char>) -> bool {
    &&& t.len() >= 2
    &&& t[0] == '@'
    &&& forall|k: int| 1 <= k < t.len() ==> is_digit(t[k])
    &&& ord_digits_val(t) <= 0xFFFF
}

/// The `NONAME` marker token.
pub open spec fn noname_tok() -> Seq<char> {
    "NONAME"@
}

/// The grammar of one manifest line: `symbol_name [@ordinal] [NONAME]`.
/// A blank line carries no entry; a name may not begin with `@`; `NONAME`
/// is only accepted right after an ordinal.
pub open spec fn spec_parse_line(l: Seq<char>) -> LineParse {
    let a0 = skip_ws_from(l, 0);
    if a0 == l.len() {
        LineParse::Blank
    } else if l[a0] == '@' {
        LineParse::Bad
    } else {
        let b0 = tok_end_from(l, a0);
        let name = l.subrange(a0, b0);
        let a1 = skip_ws_from(l, b0);
        if a1 == l.len() {
            LineParse::Entry(ExportSpec { name, kind: ExportKind::Named, ordinal: None })
        } else {
            let b1 = tok_end_from(l, a1);
            let t1 = l.subrange(a1, b1);
            let a2 = skip_ws_from(l, b1);
            if !is_ordinal_tok(t1) {
                LineParse::Bad
            } else if a2 == l.len() {
                LineParse::Entry(
                    ExportSpec {
                        name,
                        kind: ExportKind::Named,
                        ordinal: Some(ord_digits_val(t1) as u16),
                    },
                )
            } else {
                let b2 = tok_end_from(l, a2);
                let t2 = l.subrange(a2, b2);
                let a3 = skip_ws_from(l, b2);
                if t2 == noname_tok() && a3 == l.len() {
                    LineParse::Entry(
                        ExportSpec {
                            name,
                            kind: ExportKind::OrdinalOnly,
                            ordinal: Some(ord_digits_val(t1) as u16),
                        },
                    )
                } else {
                    LineParse::Bad
                }
            }
        }
    }
}

/// The entries of the comment-free text `s` from position `i` on, in line
/// order; `None` when some line violates the grammar.
pub open spec fn spec_parse_from(s: Seq<char>, i: int) -> Option<Seq<ExportSpec>>
    decreases s.len() - i,
    via spec_parse_from_dec
{
    if i < 0 || i >= s.len() {
        Some(Seq::empty())
    } else {
        let e = line_end_from(s, i);
        let head = spec_parse_line(s.subrange(i, e));
        let rest = spec_parse_from(s, e);
        match head {
            LineParse::Bad => None,
            LineParse::Blank => rest,
            LineParse::Entry(d) => match rest {
                Some(r) => Some(seq![d] + r),
                None => None,
            },
        }
    }
}

#[via_fn]
proof fn spec_parse_from_dec(s: Seq<char>, i: int) {
    if 0 <= i && i < s.len() {
        lemma_line_end_from_bounds(s, i);
    }
}

/// What parsing a whole manifest yields: comments are stripped first, then
/// every remaining line is read under the export grammar.
pub open spec fn spec_parse_manifest(s: Seq<char>) -> Option<Seq<ExportSpec>> {
    spec_parse_from(spec_strip(s), 0)
}

/// Why a manifest was rejected.
#[derive(Clone, Copy, PartialEq, Eq, Structural, Debug)]
pub enum ManifestError {
    MalformedManifest,
}

/// Removes every comment line (first non-blank character `;`) from the
/// manifest text; all other lines are kept unchanged and in order.
pub fn strip_comments(input: &str) -> (out: String)
    ensures
        out@ == spec_strip(input@),
{
    let ghost s = input@;
    let n = input.unicode_len();
    let mut out = String::new();
    let mut i: usize = 0;
    while i < n
        invariant
            s == input@,
            n == s.len(),
            i <= n,
            spec_strip(s) == out@ + strip_from(s, i as int),
        decreases n - i,
    {
        let mut j = i;
        while j < n && input.get_char(j) != '\n'
            invariant
                s == input@,
                n == s.len(),
                i <= j <= n,
                line_end_from(s, i as int) == line_end_from(s, j as int),
            decreases n - j,
        {
            j += 1;
        }
        let e = if j < n {
            j + 1
        } else {
            j
        };
        proof {
            assert(line_end_from(s, i as int) == e as int);
        }
        let line = input.substring_char(i, e);
        if !line_is_comment(line) {
            out.append(line);
        }
        proof {
            assert(strip_from(s, i as int) == (if is_comment_line(s.subrange(i as int, e as int)) {
                Seq::<char>::empty()
            } else {
                s.subrange(i as int, e as int)
            }) + strip_from(s, e as int));
            assert(out@ + strip_from(s, e as int) == spec_strip(s)) by {
                assert(Seq::<char>::empty() + strip_from(s, e as int) =~= strip_from(
                    s,
                    e as int,
                ));
                assert(forall|a: Seq<char>, b: Seq<char>, c: Seq<char>|
                    #[trigger] ((a + b) + c) =~= a + (b + c));
            }
        }
        i = e;
    }
    out
}

/// Scans past whitespace, landing on `skip_ws_from(s@, from)`.
fn scan_ws(s: &str, from: usize, n: usize) -> (r: usize)
    requires
        from <= n,
        n == s@.len(),
    ensures
        r as int == skip_ws_from(s@, from as int),
        from <= r <= n,
    {
    let mut k = from;
    while k < n && is_ws_char(s.get_char(k))
        invariant
            n == s@.len(),
            from <= k <= n,
            skip_ws_from(s@, from as int) == skip_ws_from(s@, k as int),
        decreases n - k,
    {
        k += 1;
    }
    k
}

/// Scans to the end of the token starting at `from`, landing on
/// `tok_end_from(s@, from)`.
fn scan_tok(s: &str, from: usize, n: usize) -> (r: usize)
    requires
        from <= n,
        n == s@.len(),
    ensures
        r as int == tok_end_from(s@, from as int),
        from <= r <= n,
    {
    let mut k = from;
    while k < n && !is_ws_char(s.get_char(k))
        invariant
            n == s@.len(),
            from <= k <= n,
            tok_end_from(s@, from as int) == tok_end_from(s@, k as int),
        decreases n - k,
    {
        k += 1;
    }
    k
}

/// Reads an ordinal token: `Some(v)` exactly when `t` is `@` followed by
/// digits whose value `v` fits an ordinal.
fn parse_ordinal(t: &str) -> (r: Option<u16>)
    ensures
        match r {
            Some(v) => is_ordinal_tok(t@) && v as int == ord_digits_val(t@),
            None => !is_ordinal_tok(t@),
        },
{
    let n = t.unicode_len();
    if n < 2 {
        return None;
    }
    if t.get_char(0) != '@' {
        return None;
    }
    let mut k: usize = 1;
    while k < n
        invariant
            n == t@.len(),
            1 <= k <= n,
            forall|m: int| 1 <= m < k ==> is_digit(t@[m]),
        decreases n - k,
    {
        let c = t.get_char(k);
        if !('0' <= c && c <= '9') {
            return None;
        }
        k += 1;
    }
    let mut acc: u32 = 0;
    let mut too_big = false;
    k = 1;
    while k < n
        invariant
            n == t@.len(),
            1 <= k <= n,
            forall|m: int| 1 <= m < n ==> is_digit(t@[m]),
            !too_big ==> acc as int == ord_digits_val(t@.take(k as int)) && acc <= 0xFFFF,
            too_big ==> ord_digits_val(t@.take(k as int)) > 0xFFFF,
        decreases n - k,
    {
        let c = t.get_char(k);
        let d: u32 = (c as u32) - ('0' as u32);
        proof {
            assert(t@.take(k + 1).drop_last() =~= t@.take(k as int));
            assert(t@.take(k + 1).last() == t@[k as int]);
        }
        if !too_big {
            let next = acc * 10 + d;
            if next > 0xFFFF {
                too_big = true;
            } else {
                acc = next;
            }
        }
        k += 1;
    }
    proof {
        assert(t@.take(n as int) =~= t@);
    }
    if too_big {
        None
    } else {
        Some(acc as u16)
    }
}

/// What a parsed line is at run time; mirrors `LineParse`.
enum ParsedLine {
    Blank,
    Bad,
    Entry(ExportDescriptor),
}

/// Run-time and model readings of a line agree.
spec fn line_out_matches(r: ParsedLine, p: LineParse) -> bool {
    match (r, p) {
        (ParsedLine::Blank, LineParse::Blank) => true,
        (ParsedLine::Bad, LineParse::Bad) => true,
        (ParsedLine::Entry(d), LineParse::Entry(e)) => d@ == e && desc_wf(d@),
        _ => false,
    }
}

/// Reads one line under the export grammar.
fn parse_line(line: &str) -> (r: ParsedLine)
    ensures
        line_out_matches(r, spec_parse_line(line@)),
{
    let n = line.unicode_len();
    let a0 = scan_ws(line, 0, n);
    if a0 == n {
        return ParsedLine::Blank;
    }
    if line.get_char(a0) == '@' {
        return ParsedLine::Bad;
    }
    let b0 = scan_tok(line, a0, n);
    let name = line.substring_char(a0, b0);
    let a1 = scan_ws(line, b0, n);
    if a1 == n {
        return ParsedLine::Entry(
            ExportDescriptor {
                name: String::from_str(name),
                kind: ExportKind::Named,
                ordinal: None,
            },
        );
    }
    let b1 = scan_tok(line, a1, n);
    let t1 = line.substring_char(a1, b1);
    let a2 = scan_ws(line, b1, n);
    match parse_ordinal(t1) {
        None => ParsedLine::Bad,
        Some(v) => {
            if a2 == n {
                ParsedLine::Entry(
                    ExportDescriptor {
                        name: String::from_str(name),
                        kind: ExportKind::Named,
                        ordinal: Some(v),
                    },
                )
            } else {
                let b2 = scan_tok(line, a2, n);
                let t2 = line.substring_char(a2, b2);
                let a3 = scan_ws(line, b2, n);
                let noname = String::from_str("NONAME");
                if String::from_str(t2) == noname && a3 == n {
                    ParsedLine::Entry(
                        ExportDescriptor {
                            name: String::from_str(name),
                            kind: ExportKind::OrdinalOnly,
                            ordinal: Some(v),
                        },
                    )
                } else {
                    ParsedLine::Bad
                }
            }
        },
    }
}

/// Parses a manifest: strips comment lines, then reads every remaining line
/// under the export grammar `symbol_name [@ordinal] [NONAME]`, keeping the
/// entries in line order. Returns `MalformedManifest` exactly when some line
/// violates the grammar — in particular when `NONAME` carries no ordinal.
pub fn parse_manifest(input: &str) -> (r: Result<Vec<ExportDescriptor>, ManifestError>)
    ensures
        match r {
            Ok(v) => spec_parse_manifest(input@) matches Some(ds) && descs_view(v@) == ds
                && (forall|k: int| 0 <= k < v@.len() ==> desc_wf(#[trigger] v@[k]@)),
            Err(e) => spec_parse_manifest(input@) is None && e
                == ManifestError::MalformedManifest,
        },
{
    let st = strip_comments(input);
    let sts = st.as_str();
    let ghost s = sts@;
    let n = sts.unicode_len();
    let mut out: Vec<ExportDescriptor> = Vec::new();
    let mut i: usize = 0;
    proof {
        assert(descs_view(out@) =~= Seq::<ExportSpec>::empty());
        if spec_parse_from(s, 0) is Some {
            assert(descs_view(out@) + spec_parse_from(s, 0).unwrap() =~= spec_parse_from(
                s,
                0,
            ).unwrap());
        }
    }
    while i < n
        invariant
            s == sts@,
            s == spec_strip(input@),
            n == s.len(),
            i <= n,
            spec_parse_manifest(input@) == (match spec_parse_from(s, i as int) {
                Some(rest) => Some(descs_view(out@) + rest),
                None => None::<Seq<ExportSpec>>,
            }),
            forall|k: int| 0 <= k < out@.len() ==> desc_wf(#[trigger] out@[k]@),
        decreases n - i,
    {
        let mut j = i;
        while j < n && sts.get_char(j) != '\n'
            invariant
                s == sts@,
                n == s.len(),
                i <= j <= n,
                line_end_from(s, i as int) == line_end_from(s, j as int),
            decreases n - j,
        {
            j += 1;
        }
        let e = if j < n {
            j + 1
        } else {
            j
        };
        proof {
            assert(line_end_from(s, i as int) == e as int);
        }
        let line = sts.substring_char(i, e);
        match parse_line(line) {
            ParsedLine::Bad => {
                return Err(ManifestError::MalformedManifest);
            },
            ParsedLine::Blank => {},
            ParsedLine::Entry(d) => {
                proof {
                    let rest = spec_parse_from(s, e as int);
                    if rest is Some {
                        assert(descs_view(out@.push(d)) =~= descs_view(out@).push(d@));
                        assert(descs_view(out@) + (seq![d@] + rest.unwrap()) =~= descs_view(
                            out@.push(d),
                        ) + rest.unwrap());
                    }
                }
                out.push(d);
            },
        }
        i = e;
    }
    proof {
        assert(spec_parse_from(s, n as int) == Some(Seq::<ExportSpec>::empty()));
        assert(descs_view(out@) + Seq::<ExportSpec>::empty() =~= descs_view(out@));
    }
    Ok(out)
}

} // verus!
