//! Code-action candidate scanner: a lightweight, text-pattern-based pass
//! over raw document text. It proposes replacing the text `VS Code` by
//! `Neovim` inside the requested range, and, for every `#table(...)` block,
//! one "add missing parameter" edit per table parameter not yet supplied.
//! It has no state of its own and performs no caching.

use vstd::prelude::*;
use vstd::string::StringExecFns;

use crate::backend::Backend;
use crate::mapper::{line_of, scan_line_start, Position};

verus! {

/// A proposed quick-fix edit: replace the text between `start` and `end`
/// (line and character in editor coordinates) by `new_text`.
pub struct CodeActionProposal {
    pub title: String,
    pub start: Position,
    pub end: Position,
    pub new_text: String,
}

/// The mathematical content of a proposal.
pub struct ProposalModel {
    pub title: Seq<char>,
    pub line: nat,
    pub character: nat,
    pub end_line: nat,
    pub end_character: nat,
    pub new_text: Seq<char>,
}

/// The mathematical content of a proposal value.
pub open spec fn proposal_model(p: CodeActionProposal) -> ProposalModel {
    ProposalModel {
        title: p.title@,
        line: p.start.line as nat,
        character: p.start.character as nat,
        end_line: p.end.line as nat,
        end_character: p.end.character as nat,
        new_text: p.new_text@,
    }
}

/// Capture group 1 of every match of a pattern in a text, leftmost first,
/// as the regex engine finds them; nothing when the pattern is invalid. A
/// function of the pattern and the text alone.
pub uninterp spec fn regex_group1_matches(pattern: Seq<char>, text: Seq<char>) -> Seq<Seq<char>>;

/// The extraction pattern for supplied parameter names: an identifier,
/// optionally hyphenated once, followed by optional whitespace and a colon.
pub open spec fn param_pat() -> Seq<char> {
    "(\\w+(-\\w+)?)\\s*:"@
}

/// The parameter names supplied in a block's text: what the extraction
/// pattern captures, in textual order, duplicates kept.
pub open spec fn params_of(s: Seq<char>) -> Seq<Seq<char>> {
    regex_group1_matches(param_pat(), s)
}

/// Relies on regex::Regex::new and Regex::captures_iter: the matches of the
/// pattern in the text come leftmost first and non-overlapping, and group 1
/// is each match's first capture; an invalid pattern builds no engine. Both
/// calls depend on the pattern and the text alone.
#[verifier::external_body]
fn regex_group1(pattern: &str, content: &Vec<char>) -> (r: Vec<String>)
    ensures
        r@.map_values(|x: String| x@) == regex_group1_matches(pattern@, content@),
{
    let text: String = content.iter().collect();
    let mut out: Vec<String> = Vec::new();
    if let Ok(re) = regex::Regex::new(pattern) {
        for caps in re.captures_iter(&text) {
            if let Some(m) = caps.get(1) {
                out.push(m.as_str().to_owned());
            }
        }
    }
    out
}

/// The fixed table parameters and their default values, in order.
pub open spec fn table_params_spec() -> Seq<(Seq<char>, Seq<char>)> {
    seq![
        ("columns"@, "auto"@),
        ("rows"@, "auto"@),
        ("gutter"@, "auto"@),
        ("column-gutter"@, "auto"@),
        ("row-gutter"@, "auto"@),
        ("fill"@, "none"@),
        ("align"@, "auto"@),
        ("stroke"@, "none"@),
        ("inset"@, "relative"@),
    ]
}

/// The pattern that replaces an editor's name.
pub open spec fn vs_pat() -> Seq<char> {
    seq!['V', 'S', ' ', 'C', 'o', 'd', 'e']
}

/// The opening pattern of a table block.
pub open spec fn table_open_pat() -> Seq<char> {
    seq!['#', 't', 'a', 'b', 'l', 'e', '(']
}

/// First index in `[lo, hi)` where `pat` matches `s`, if any.
pub open spec fn first_match_from(s: Seq<char>, pat: Seq<char>, lo: int, hi: int) -> Option<int>
    decreases hi + 1 - lo,
{
    if lo < 0 || hi > s.len() || lo + pat.len() > hi {
        None
    } else if s.subrange(lo, lo + pat.len() as int) == pat {
        Some(lo)
    } else {
        first_match_from(s, pat, lo + 1, hi)
    }
}

/// First index of a line terminator at or after `i`, or the text's end.
pub open spec fn line_end(s: Seq<char>, i: int) -> int
    decreases s.len() - i,
{
    if i < 0 || i >= s.len() {
        s.len() as int
    } else if s[i] == '\n' {
        i
    } else {
        line_end(s, i + 1)
    }
}

/// The line's end lies between `i` and the text's end.
pub proof fn lemma_line_end_bounds(s: Seq<char>, i: int)
    requires
        0 <= i <= s.len(),
    ensures
        i <= line_end(s, i) <= s.len(),
    decreases s.len() - i,
{
    if i < s.len() && s[i] != '\n' {
        lemma_line_end_bounds(s, i + 1);
    }
}

/// The proposal replacing the editor name found at column `c` of line `l`.
pub open spec fn vs_replace_model(l: nat, c: nat) -> ProposalModel {
    ProposalModel {
        title: "Replace 'VS Code' with 'Neovim'"@,
        line: l,
        character: c,
        end_line: l,
        end_character: (c + vs_pat().len()) as nat,
        new_text: "Neovim"@,
    }
}

/// The proposal adding one missing table parameter below the block's head.
pub open spec fn add_param_model(p: (Seq<char>, Seq<char>), st_line: nat) -> ProposalModel {
    ProposalModel {
        title: "Add missing parameter: "@ + p.0,
        line: st_line + 1,
        character: 2,
        end_line: st_line + 1,
        end_character: 2,
        new_text: p.0 + ": "@ + p.1 + ",\n  "@,
    }
}

/// The replace proposals for the requested range: one, when the range sits
/// on a single existing line holding the pattern.
pub open spec fn vs_actions_spec(s: Seq<char>, rs: Position, re: Position) -> Seq<ProposalModel> {
    if rs.line == re.line && rs.line as nat <= line_of(s, s.len() as int) {
        let ls = scan_line_start(s, 0, rs.line as nat);
        match first_match_from(s, vs_pat(), ls, line_end(s, ls)) {
            Some(c) => seq![vs_replace_model(rs.line as nat, (c - ls) as nat)],
            None => Seq::empty(),
        }
    } else {
        Seq::empty()
    }
}

/// The add-missing-parameter proposals of one finished block, walking the
/// fixed parameter list from `k` and skipping the names already present.
pub open spec fn block_actions_from(existing: Seq<Seq<char>>, st_line: nat, k: int) -> Seq<
    ProposalModel,
>
    decreases table_params_spec().len() - k,
{
    if k < 0 || k >= table_params_spec().len() {
        Seq::empty()
    } else {
        let rest = block_actions_from(existing, st_line, k + 1);
        if existing.contains(table_params_spec()[k].0) {
            rest
        } else {
            seq![add_param_model(table_params_spec()[k], st_line)] + rest
        }
    }
}

/// The table proposals of the text from index `i` on: lines are scanned in
/// order; a line holding the opening pattern starts a block (or moves an
/// open block's start line there), lines of an open block accumulate, and a
/// line holding `)` finishes the block and yields its missing-parameter
/// proposals.
pub open spec fn table_actions_from(
    s: Seq<char>,
    i: int,
    in_block: bool,
    st_line: nat,
    buf: Seq<char>,
    line_no: nat,
) -> Seq<ProposalModel>
    decreases s.len() + 1 - i,
    via table_actions_from_decreases
{
    if i < 0 || i >= s.len() {
        Seq::empty()
    } else {
        let e = line_end(s, i);
        let line = s.subrange(i, e);
        let opened = first_match_from(line, table_open_pat(), 0, line.len() as int) is Some;
        let started = in_block || opened;
        let st = if opened {
            line_no
        } else {
            st_line
        };
        if started {
            let buf2 = buf + line + seq!['\n'];
            if first_match_from(line, seq![')'], 0, line.len() as int) is Some {
                block_actions_from(params_of(buf2), st, 0) + table_actions_from(
                    s,
                    e + 1,
                    false,
                    0,
                    Seq::empty(),
                    line_no + 1,
                )
            } else {
                table_actions_from(s, e + 1, true, st, buf2, line_no + 1)
            }
        } else {
            table_actions_from(s, e + 1, false, 0, Seq::empty(), line_no + 1)
        }
    }
}

#[via_fn]
proof fn table_actions_from_decreases(
    s: Seq<char>,
    i: int,
    in_block: bool,
    st_line: nat,
    buf: Seq<char>,
    line_no: nat,
) {
    if 0 <= i < s.len() {
        lemma_line_end_bounds(s, i);
    }
}

/// Everything the scanner proposes: the replace proposals of the range,
/// then the table proposals of the whole text.
pub open spec fn code_actions_spec(s: Seq<char>, rs: Position, re: Position) -> Seq<
    ProposalModel,
> {
    vs_actions_spec(s, rs, re) + table_actions_from(s, 0, false, 0, Seq::empty(), 0)
}

/// Matching a pattern within a window of the text is the same as matching it
/// within the window taken as a text of its own.
proof fn lemma_first_match_shift(s: Seq<char>, pat: Seq<char>, base: int, lo: int, hi: int)
    requires
        pat.len() >= 1,
        0 <= base <= lo,
        lo <= hi <= s.len(),
    ensures
        match first_match_from(s, pat, lo, hi) {
            Some(m) => first_match_from(s.subrange(base, hi), pat, lo - base, hi - base) == Some(
                m - base,
            ),
            None => first_match_from(s.subrange(base, hi), pat, lo - base, hi - base) is None,
        },
    decreases hi - lo,
{
    let sub = s.subrange(base, hi);
    if lo + pat.len() <= hi {
        assert(s.subrange(lo, lo + pat.len() as int) =~= sub.subrange(
            lo - base,
            lo - base + pat.len() as int,
        ));
        if s.subrange(lo, lo + pat.len() as int) == pat {
        } else {
            lemma_first_match_shift(s, pat, base, lo + 1, hi);
        }
    }
}

/// Whether the characters in `[k, k + pat.len())` equal `pat`.
fn range_matches(content: &Vec<char>, k: usize, pat: &Vec<char>) -> (r: bool)
    requires
        k + pat@.len() <= content@.len(),
    ensures
        r == (content@.subrange(k as int, k as int + pat@.len() as int) == pat@),
{
    let n = content.len();
    let plen = pat.len();
    let mut t: usize = 0;
    while t < plen
        invariant
            t <= plen,
            plen == pat@.len(),
            n == content@.len(),
            k + plen <= n,
            forall|u: int| 0 <= u < t ==> content@[k + u] == pat@[u],
        decreases plen - t,
    {
        if content[k + t] != pat[t] {
            proof {
                assert(content@.subrange(k as int, k as int + plen as int)[t as int] != pat@[
                    t as int
                ]);
            }
            return false;
        }
        t = t + 1;
    }
    proof {
        assert(content@.subrange(k as int, k as int + plen as int) =~= pat@);
    }
    true
}

/// First index in `[lo, hi)` of `content` where `pat` matches.
fn find_pattern(content: &Vec<char>, lo: usize, hi: usize, pat: &Vec<char>) -> (r: Option<usize>)
    requires
        pat@.len() >= 1,
        lo <= hi,
        hi <= content@.len(),
    ensures
        match r {
            Some(m) => first_match_from(content@, pat@, lo as int, hi as int) == Some(m as int)
                && lo <= m && m + pat@.len() <= hi,
            None => first_match_from(content@, pat@, lo as int, hi as int) is None,
        },
{
    let ghost s = content@;
    let plen = pat.len();
    if plen > hi - lo {
        return None;
    }
    let mut k = lo;
    while k <= hi - plen
        invariant
            s == content@,
            plen >= 1,
            lo <= k,
            k <= hi - plen + 1,
            plen == pat@.len(),
            plen <= hi - lo,
            lo <= hi <= s.len(),
            first_match_from(s, pat@, lo as int, hi as int) == first_match_from(
                s,
                pat@,
                k as int,
                hi as int,
            ),
        decreases hi - k,
    {
        if range_matches(content, k, pat) {
            return Some(k);
        }
        k = k + 1;
    }
    None
}

/// The pattern the replace action looks for.
fn vs_pattern() -> (r: Vec<char>)
    ensures
        r@ =~= vs_pat(),
{
    let mut v: Vec<char> = Vec::new();
    v.push('V');
    v.push('S');
    v.push(' ');
    v.push('C');
    v.push('o');
    v.push('d');
    v.push('e');
    v
}

/// The opening pattern of a table block.
fn table_open_pattern() -> (r: Vec<char>)
    ensures
        r@ =~= table_open_pat(),
{
    let mut v: Vec<char> = Vec::new();
    v.push('#');
    v.push('t');
    v.push('a');
    v.push('b');
    v.push('l');
    v.push('e');
    v.push('(');
    v
}

/// The closing pattern of a table block.
fn close_pattern() -> (r: Vec<char>)
    ensures
        r@ =~= seq![')'],
{
    let mut v: Vec<char> = Vec::new();
    v.push(')');
    v
}

/// Whether `name` is among `names`.
fn contains_name(names: &Vec<String>, name: &String) -> (r: bool)
    ensures
        r == names@.map_values(|x: String| x@).contains(name@),
{
    let ghost views = names@.map_values(|x: String| x@);
    let n = names.len();
    let mut i: usize = 0;
    while i < n
        invariant
            i <= n,
            n == names@.len(),
            views == names@.map_values(|x: String| x@),
            forall|k: int| 0 <= k < i ==> views[k] != name@,
        decreases n - i,
    {
        if names[i] == *name {
            proof {
                assert(views[i as int] == name@);
            }
            return true;
        }
        i = i + 1;
    }
    proof {
        if views.contains(name@) {
            let k = choose|k: int| 0 <= k < views.len() && views[k] == name@;
            assert(false);
        }
    }
    false
}

impl Backend {
    /// The table parameters and their defaults, as fixed pairs.
    pub fn get_table_parameters(&self) -> (r: Vec<(String, String)>)
        ensures
            r@.map_values(|p: (String, String)| (p.0@, p.1@)) =~= table_params_spec(),
    {
        let mut v: Vec<(String, String)> = Vec::new();
        v.push(("columns".to_owned(), "auto".to_owned()));
        v.push(("rows".to_owned(), "auto".to_owned()));
        v.push(("gutter".to_owned(), "auto".to_owned()));
        v.push(("column-gutter".to_owned(), "auto".to_owned()));
        v.push(("row-gutter".to_owned(), "auto".to_owned()));
        v.push(("fill".to_owned(), "none".to_owned()));
        v.push(("align".to_owned(), "auto".to_owned()));
        v.push(("stroke".to_owned(), "none".to_owned()));
        v.push(("inset".to_owned(), "relative".to_owned()));
        v
    }

    /// Extract the parameter names already supplied in a `#table(...)`
    /// block's text: what the extraction pattern captures, in textual order.
    pub fn parse_table_params(&self, content: &Vec<char>) -> (r: Vec<String>)
        ensures
            r@.map_values(|x: String| x@) == params_of(content@),
    {
        regex_group1("(\\w+(-\\w+)?)\\s*:", content)
    }
}

impl Backend {
    /// Every quick fix the scanner proposes for the text and range: the
    /// replace proposal of the range's line, then, for each `#table(...)`
    /// block, one proposal per missing table parameter, in the fixed
    /// parameter order.
    #[verifier::rlimit(100)]
    pub fn calculate_code_actions(
        &self,
        content: &Vec<char>,
        range_start: Position,
        range_end: Position,
    ) -> (r: Vec<CodeActionProposal>)
        requires
            content@.len() < u32::MAX,
        ensures
            r@.map_values(|p: CodeActionProposal| proposal_model(p)) =~= code_actions_spec(
                content@,
                range_start,
                range_end,
            ),
    {
        let ghost s = content@;
        let n = content.len();
        let mut out: Vec<CodeActionProposal> = Vec::new();
        let vs = vs_pattern();
        if range_start.line == range_end.line {
            let target = range_start.line;
            let mut j: usize = 0;
            let mut ln: u32 = 0;
            while ln < target && j < n
                invariant
                    s == content@,
                    j <= n,
                    n == s.len(),
                    ln == line_of(s, j as int),
                    ln <= target,
                    ln < target ==> scan_line_start(s, 0, target as nat) == scan_line_start(
                        s,
                        j as int,
                        (target - ln) as nat,
                    ),
                    ln == target ==> scan_line_start(s, 0, target as nat) == j as int,
                decreases n - j,
            {
                let c = content[j];
                if c == '\n' {
                    ln = ln + 1;
                }
                j = j + 1;
            }
            if ln == target {
                proof {
                    crate::mapper::lemma_line_of_monotone(s, j as int, n as int);
                }
                let mut e = j;
                while e < n && content[e] != '\n'
                    invariant
                        s == content@,
                        j <= e <= n,
                        n == s.len(),
                        line_end(s, j as int) == line_end(s, e as int),
                    decreases n - e,
                {
                    e = e + 1;
                }
                proof {
                    assert(line_end(s, e as int) == e as int);
                    assert(vs@ == vs_pat());
                }
                match find_pattern(content, j, e, &vs) {
                    Some(c) => {
                        let ghost before = out@;
                        out.push(
                            CodeActionProposal {
                                title: "Replace 'VS Code' with 'Neovim'".to_owned(),
                                start: Position { line: target, character: (c - j) as u32 },
                                end: Position { line: target, character: (c - j + 7) as u32 },
                                new_text: "Neovim".to_owned(),
                            },
                        );
                        proof {
                            assert(out@.map_values(|p: CodeActionProposal| proposal_model(p))
                                =~= before.map_values(|p: CodeActionProposal| proposal_model(p)).push(
                                vs_replace_model(target as nat, (c - j) as nat),
                            ));
                        }
                    },
                    None => {},
                }
            } else {
                proof {
                    assert(j == n);
                }
            }
        }
        proof {
            assert(out@.map_values(|p: CodeActionProposal| proposal_model(p)) =~= vs_actions_spec(
                s,
                range_start,
                range_end,
            ));
        }
        let tbl = table_open_pattern();
        let close = close_pattern();
        let all = self.get_table_parameters();
        let ghost total = code_actions_spec(s, range_start, range_end);
        let mut i: usize = 0;
        let mut line_no: u32 = 0;
        let mut in_block = false;
        let mut start_line: u32 = 0;
        let mut buf: Vec<char> = Vec::new();
        while i < n
            invariant
                s == content@,
                i <= n + 1,
                n == s.len(),
                n < u32::MAX,
                line_no as nat <= i as nat,
                start_line <= line_no,
                !in_block ==> buf@ =~= Seq::<char>::empty(),
                !in_block ==> start_line == 0,
                all@.map_values(|p: (String, String)| (p.0@, p.1@)) =~= table_params_spec(),
                tbl@ =~= table_open_pat(),
                close@ =~= seq![')'],
                total == code_actions_spec(s, range_start, range_end),
                out@.map_values(|p: CodeActionProposal| proposal_model(p)) + table_actions_from(
                    s,
                    i as int,
                    in_block,
                    start_line as nat,
                    buf@,
                    line_no as nat,
                ) =~= total,
            decreases n + 1 - i,
        {
            let ghost g_in = in_block;
            let ghost g_st = start_line as nat;
            let ghost g_buf = buf@;
            let ghost g_ln = line_no as nat;
            proof {
                lemma_line_end_bounds(s, i as int);
            }
            let mut e = i;
            while e < n && content[e] != '\n'
                invariant
                    s == content@,
                    i <= e <= n,
                    n == s.len(),
                    line_end(s, i as int) == line_end(s, e as int),
                decreases n - e,
            {
                e = e + 1;
            }
            proof {
                assert(line_end(s, e as int) == e as int);
            }
            let ghost line = s.subrange(i as int, e as int);
            let opened = match find_pattern(content, i, e, &tbl) {
                Some(_) => true,
                None => false,
            };
            let closed = match find_pattern(content, i, e, &close) {
                Some(_) => true,
                None => false,
            };
            proof {
                assert(tbl@ == table_open_pat());
                assert(close@ == seq![')']);
                lemma_first_match_shift(s, table_open_pat(), i as int, i as int, e as int);
                lemma_first_match_shift(s, seq![')'], i as int, i as int, e as int);
                assert(opened == (first_match_from(line, table_open_pat(), 0, line.len() as int)
                    is Some));
                assert(closed == (first_match_from(line, seq![')'], 0, line.len() as int)
                    is Some));
            }
            let started = in_block || opened;
            if opened {
                start_line = line_no;
            }
            if started {
                let ghost buf0 = buf@;
                let mut t = i;
                while t < e
                    invariant
                        s == content@,
                        i <= t <= e,
                        e <= n,
                        n == s.len(),
                        buf@ =~= buf0 + s.subrange(i as int, t as int),
                    decreases e - t,
                {
                    buf.push(content[t]);
                    proof {
                        assert(buf@ =~= buf0 + s.subrange(i as int, t as int + 1));
                    }
                    t = t + 1;
                }
                buf.push('\n');
                proof {
                    assert(buf@ =~= buf0 + line + seq!['\n']);
                }
                if closed {
                    let existing = self.parse_table_params(&buf);
                    let ghost ex = params_of(buf@);
                    let ghost rest = table_actions_from(
                        s,
                        e as int + 1,
                        false,
                        0nat,
                        Seq::empty(),
                        g_ln + 1,
                    );
                    proof {
                        assert(table_actions_from(s, i as int, g_in, g_st, g_buf, g_ln)
                            == block_actions_from(ex, start_line as nat, 0) + rest);
                    }
                    let m = all.len();
                    let mut k: usize = 0;
                    while k < m
                        invariant
                            k <= m,
                            m == all@.len(),
                            all@.map_values(|p: (String, String)| (p.0@, p.1@))
                                =~= table_params_spec(),
                            existing@.map_values(|x: String| x@) =~= ex,
                            start_line < u32::MAX,
                            out@.map_values(|p: CodeActionProposal| proposal_model(p))
                                + block_actions_from(ex, start_line as nat, k as int) + rest
                                =~= total,
                        decreases m - k,
                    {
                        let p = &all[k];
                        proof {
                            assert(table_params_spec()[k as int] == (
                                all@[k as int].0@,
                                all@[k as int].1@,
                            ));
                        }
                        if !contains_name(&existing, &p.0) {
                            let title = "Add missing parameter: ".to_owned().concat(p.0.as_str());
                            let new_text = p.0.clone().concat(": ").concat(p.1.as_str()).concat(
                                ",\n  ",
                            );
                            let ghost before = out@;
                            out.push(
                                CodeActionProposal {
                                    title,
                                    start: Position { line: start_line + 1, character: 2 },
                                    end: Position { line: start_line + 1, character: 2 },
                                    new_text,
                                },
                            );
                            proof {
                                assert(out@.map_values(|p: CodeActionProposal| proposal_model(p))
                                    =~= before.map_values(
                                    |p: CodeActionProposal| proposal_model(p),
                                ).push(
                                    add_param_model(
                                        table_params_spec()[k as int],
                                        start_line as nat,
                                    ),
                                ));
                            }
                        }
                        k = k + 1;
                    }
                    in_block = false;
                    start_line = 0;
                    buf.clear();
                } else {
                    in_block = true;
                    proof {
                        assert(table_actions_from(s, i as int, g_in, g_st, g_buf, g_ln)
                            == table_actions_from(
                            s,
                            e as int + 1,
                            true,
                            start_line as nat,
                            buf@,
                            g_ln + 1,
                        ));
                    }
                }
            } else {
                proof {
                    assert(table_actions_from(s, i as int, g_in, g_st, g_buf, g_ln)
                        == table_actions_from(
                        s,
                        e as int + 1,
                        false,
                        0nat,
                        Seq::empty(),
                        g_ln + 1,
                    ));
                }
            }
            i = e + 1;
            line_no = line_no + 1;
        }
        proof {
            assert(out@.map_values(|p: CodeActionProposal| proposal_model(p)) =~= total);
        }
        out
    }
}

} // verus!
