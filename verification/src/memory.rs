//! The plain-text memory store's editing logic: the layout of its files,
//! the section-append rewrite of the long-term file, context assembly with
//! budgeted truncation, and the keyword search over memory files. All file
//! reading and writing happens outside; these functions turn old content
//! into new content.
use crate::frontmatter::{lines_of, lines_seq};
use crate::strutil::{
    chars_to_string, find_char_idx, find_sub_idx, first_char_idx, first_match_idx, join_seq,
    join_strings, last_match_idx, lower_of, lowercase, match_at, push_char, rfind_sub_idx,
    str_chars, str_eq, subrange_vec, trim_chars, trim_seq, trim_str,
};
use crate::discover::strings_view;
use chrono::Datelike;
use vstd::prelude::*;
use vstd::seq_lib::*;

verus! {

/// The size cap of the extracted-notes section before its oldest bullet
/// lines are trimmed away.
pub const MAX_EXTRACTED_NOTES_CHARS: usize = 8000;

/// The character budget of the assembled memory context.
pub const MAX_CONTEXT_CHARS: usize = 8000;

/// Relies on `chrono::Local::now` and `chrono::Datelike`: the local date
/// rendered as `YYYY-MM-DD`. The value depends on the clock; only the
/// rendering's minimum length is promised.
#[verifier::external_body]
pub fn today_date() -> (r: String)
    ensures
        r@.len() >= 10,
{
    let now = chrono::Local::now().date_naive();
    format!("{:04}-{:02}-{:02}", now.year(), now.month(), now.day())
}

/// The file paths of the memory store under a workspace: its memory
/// directory and its long-term file.
pub struct MemoryStore {
    pub workspace: String,
    pub memory_dir: String,
    pub memory_file: String,
}

impl MemoryStore {
    /// The store layout under a workspace directory: a `memory` directory
    /// holding `MEMORY.md` and dated daily files.
    pub fn new(workspace: String) -> (r: MemoryStore)
        ensures
            r.workspace@ == workspace@,
            r.memory_dir@ == workspace@ + "/memory"@,
            r.memory_file@ == workspace@ + "/memory"@ + "/MEMORY.md"@,
    {
        let mut memory_dir = String::from_str(workspace.as_str());
        memory_dir.append("/memory");
        let mut memory_file = String::from_str(memory_dir.as_str());
        memory_file.append("/MEMORY.md");
        MemoryStore { workspace, memory_dir, memory_file }
    }

    /// The workspace directory the store lives under.
    pub fn workspace(&self) -> (r: &String)
        ensures
            r@ == self.workspace@,
    {
        &self.workspace
    }

    /// The memory directory.
    pub fn memory_dir(&self) -> (r: &String)
        ensures
            r@ == self.memory_dir@,
    {
        &self.memory_dir
    }

    /// The daily file path for a given date string.
    pub fn daily_file(&self, date: &str) -> (r: String)
        ensures
            r@ == self.memory_dir@ + seq!['/'] + date@ + ".md"@,
    {
        let mut p = String::from_str(self.memory_dir.as_str());
        push_char(&mut p, '/');
        p.append(date);
        p.append(".md");
        p
    }

    /// Today's daily file path, from the local clock.
    pub fn get_today_file(&self) -> (r: String)
        ensures
            exists|d: Seq<char>|
                d.len() >= 10 && r@ == self.memory_dir@ + seq!['/'] + d + ".md"@,
    {
        let d = today_date();
        let ghost gd = d@;
        let r = self.daily_file(d.as_str());
        proof {
            assert(gd.len() >= 10 && r@ == self.memory_dir@ + seq!['/'] + gd + ".md"@);
        }
        r
    }

    /// The rewritten long-term content after appending extracted facts to
    /// the extracted-notes section, `None` when there is nothing to add.
    pub fn append_extracted_facts(
        &self,
        existing: &str,
        facts: &Vec<String>,
        today: &str,
    ) -> (r: Option<String>)
        ensures
            match r {
                None => facts@.len() == 0,
                Some(updated) => facts@.len() > 0 && updated@ == spec_insert_into_section(
                    existing@,
                    "## Extracted Notes"@,
                    spec_bullets(strings_view(facts@), today@),
                    MAX_EXTRACTED_NOTES_CHARS as int,
                ),
            },
    {
        if facts.len() == 0 {
            return None;
        }
        let bullets = render_bullets(facts, today);
        Some(insert_into_section(existing, "## Extracted Notes", bullets.as_str(), true))
    }

    /// The rewritten long-term content after appending one remembered
    /// fact, `None` when the fact is blank.
    pub fn append_remembered_fact(&self, existing: &str, fact: &str, today: &str) -> (r: Option<
        String,
    >)
        ensures
            match r {
                None => trim_seq(fact@).len() == 0,
                Some(updated) => trim_seq(fact@).len() > 0 && updated@
                    == spec_insert_into_section(
                    existing@,
                    "## Remembered Facts"@,
                    spec_bullet(trim_seq(fact@), today@),
                    -1,
                ),
            },
    {
        let f = trim_str(fact);
        if f.as_str().unicode_len() == 0 {
            return None;
        }
        let bullet = render_bullet(f.as_str(), today);
        Some(insert_into_section(existing, "## Remembered Facts", bullet.as_str(), false))
    }
}

/// One dated bullet line.
pub open spec fn spec_bullet(fact: Seq<char>, today: Seq<char>) -> Seq<char> {
    "- ["@ + today + "] "@ + fact
}

/// The dated bullet lines of a fact batch, joined by newlines.
pub open spec fn spec_bullets(facts: Seq<Seq<char>>, today: Seq<char>) -> Seq<char> {
    join_seq(facts.map_values(|f: Seq<char>| spec_bullet(f, today)), seq!['\n'])
}

fn render_bullet(fact: &str, today: &str) -> (r: String)
    ensures
        r@ == spec_bullet(fact@, today@),
{
    let mut b = String::from_str("- [");
    b.append(today);
    b.append("] ");
    b.append(fact);
    b
}

#[verifier::loop_isolation(false)]
fn render_bullets(facts: &Vec<String>, today: &str) -> (r: String)
    ensures
        r@ == spec_bullets(strings_view(facts@), today@),
{
    let ghost gf = strings_view(facts@);
    let ghost mapped = gf.map_values(|f: Seq<char>| spec_bullet(f, today@));
    let mut lines: Vec<String> = Vec::new();
    let mut i: usize = 0;
    proof {
        assert(strings_view(lines@) =~= mapped.take(0));
    }
    while i < facts.len()
        invariant
            i <= gf.len(),
            gf.len() == facts@.len(),
            mapped.len() == gf.len(),
            strings_view(lines@) == mapped.take(i as int),
        decreases gf.len() - i,
    {
        proof {
            assert(gf[i as int] == facts@[i as int]@);
            assert(mapped.take(i + 1) =~= mapped.take(i as int).push(mapped[i as int]));
        }
        lines.push(render_bullet(facts[i].as_str(), today));
        proof {
            assert(strings_view(lines@) =~= strings_view(lines@).drop_last().push(
                mapped[i as int],
            ));
        }
        i = i + 1;
    }
    proof {
        assert(mapped.take(mapped.len() as int) =~= mapped);
    }
    let sep = chars_to_string(&['\n']);
    proof {
        assert(sep@ =~= seq!['\n']);
    }
    join_strings(&lines, sep.as_str())
}

/// Leading newlines removed.
pub open spec fn strip_leading_nl(s: Seq<char>) -> Seq<char>
    decreases s.len(),
{
    if s.len() > 0 && s[0] == '\n' {
        strip_leading_nl(s.drop_first())
    } else {
        s
    }
}

/// The oldest lines dropped from the front until the text fits the cap;
/// a text without newlines stays as it is.
pub open spec fn spec_trim_oldest(c: Seq<char>, cap: int) -> Seq<char>
    decreases c.len(),
{
    if c.len() <= cap {
        c
    } else {
        let p0 = first_char_idx(c, '\n');
        if 0 <= p0 < c.len() {
            spec_trim_oldest(c.skip(p0 + 1), cap)
        } else {
            c
        }
    }
}

/// The section-append rewrite shared by the memory appenders: with the
/// header present, the addition goes at the end of that section (trimmed
/// from the top under a cap); without it, a new section goes at the end of
/// the file.
pub open spec fn spec_insert_into_section(
    existing: Seq<char>,
    header: Seq<char>,
    addition: Seq<char>,
    cap: int,
) -> Seq<char> {
    let hidx = first_match_idx(existing, header);
    if hidx >= 0 {
        let after_header = hidx + header.len();
        let before = existing.take(after_header);
        let rest = existing.skip(after_header);
        let e = first_match_idx(rest, "\n## "@);
        let send = if e >= 0 {
            e
        } else {
            rest.len() as int
        };
        let section_body = strip_leading_nl(rest.take(send));
        let after_section = rest.skip(send);
        let combined0 = if section_body.len() == 0 {
            addition
        } else {
            section_body + seq!['\n'] + addition
        };
        let combined = if cap >= 0 {
            spec_trim_oldest(combined0, cap)
        } else {
            combined0
        };
        before + seq!['\n'] + combined + after_section
    } else {
        let base = if existing.len() > 0 && existing.last() != '\n' {
            existing + seq!['\n']
        } else {
            existing
        };
        base + seq!['\n'] + header + seq!['\n'] + addition + seq!['\n']
    }
}

/// Applies the section-append rewrite; with `capped` the extracted-notes
/// cap holds.
#[verifier::loop_isolation(false)]
#[verifier::rlimit(60)]
fn insert_into_section(existing: &str, header: &str, addition: &str, capped: bool) -> (r: String)
    ensures
        r@ == spec_insert_into_section(
            existing@,
            header@,
            addition@,
            if capped {
                MAX_EXTRACTED_NOTES_CHARS as int
            } else {
                -1
            },
        ),
{
    let cs = str_chars(existing);
    let hc = str_chars(header);
    let n = cs.len();
    match find_sub_idx(cs.as_slice(), hc.as_slice()) {
        Some(hidx) => {
            proof {
                assert(hidx + hc@.len() <= n);
            }
            let after_header = hidx + hc.len();
            let before = subrange_vec(cs.as_slice(), 0, after_header);
            let rest = subrange_vec(cs.as_slice(), after_header, n);
            proof {
                assert(before@ =~= existing@.take(after_header as int));
                assert(rest@ =~= existing@.skip(after_header as int));
            }
            let marker = str_chars("\n## ");
            let send: usize = match find_sub_idx(rest.as_slice(), marker.as_slice()) {
                Some(e) => e,
                None => rest.len(),
            };
            proof {
                if first_match_idx(rest@, "\n## "@) >= 0 {
                    assert(match_at(rest@, "\n## "@, first_match_idx(rest@, "\n## "@)));
                }
            }
            let head = subrange_vec(rest.as_slice(), 0, send);
            let mut body_start: usize = 0;
            proof {
                assert(head@.skip(0) =~= head@);
            }
            while body_start < head.len() && head[body_start] == '\n'
                invariant
                    body_start <= head@.len(),
                    strip_leading_nl(head@) == strip_leading_nl(head@.skip(body_start as int)),
                decreases head@.len() - body_start,
            {
                proof {
                    assert(head@.skip(body_start as int)[0] == head@[body_start as int]);
                    assert(head@.skip(body_start as int).drop_first() =~= head@.skip(
                        body_start + 1,
                    ));
                }
                body_start = body_start + 1;
            }
            let section_body = subrange_vec(head.as_slice(), body_start, head.len());
            proof {
                let sk = head@.skip(body_start as int);
                assert(section_body@ =~= sk);
                assert(strip_leading_nl(sk) == sk) by {
                    if sk.len() > 0 {
                        assert(sk[0] == head@[body_start as int]);
                    }
                }
                assert(head@ =~= rest@.take(send as int));
            }
            let after_section = subrange_vec(rest.as_slice(), send, rest.len());
            proof {
                assert(after_section@ =~= rest@.skip(send as int));
            }
            let mut combined: Vec<char>;
            if section_body.len() == 0 {
                combined = str_chars(addition);
            } else {
                combined = section_body;
                combined.push('\n');
                let mut add = str_chars(addition);
                combined.append(&mut add);
                proof {
                    assert(combined@ =~= strip_leading_nl(rest@.take(send as int)) + seq!['\n']
                        + addition@);
                }
            }
            if capped {
                let ghost c0 = combined@;
                while combined.len() > MAX_EXTRACTED_NOTES_CHARS
                    invariant
                        spec_trim_oldest(c0, MAX_EXTRACTED_NOTES_CHARS as int)
                            == spec_trim_oldest(combined@, MAX_EXTRACTED_NOTES_CHARS as int),
                    decreases combined@.len(),
                {
                    match find_char_idx(combined.as_slice(), '\n') {
                        Some(p) => {
                            let next = subrange_vec(combined.as_slice(), p + 1, combined.len());
                            proof {
                                assert(next@ =~= combined@.skip(p + 1));
                            }
                            combined = next;
                        },
                        None => {
                            break ;
                        },
                    }
                }
                proof {
                    assert(spec_trim_oldest(combined@, MAX_EXTRACTED_NOTES_CHARS as int)
                        == combined@) by {
                        if combined@.len() > MAX_EXTRACTED_NOTES_CHARS {
                            assert(first_char_idx(combined@, '\n') == -1);
                        }
                    }
                }
            }
            let mut out = before;
            out.push('\n');
            let mut c = combined;
            out.append(&mut c);
            let mut a = after_section;
            out.append(&mut a);
            proof {
                assert(out@ =~= spec_insert_into_section(
                    existing@,
                    header@,
                    addition@,
                    if capped {
                        MAX_EXTRACTED_NOTES_CHARS as int
                    } else {
                        -1int
                    },
                ));
            }
            chars_to_string(out.as_slice())
        },
        None => {
            let mut out = subrange_vec(cs.as_slice(), 0, cs.len());
            proof {
                assert(out@ =~= existing@);
            }
            if out.len() > 0 && out[out.len() - 1] != '\n' {
                out.push('\n');
            }
            out.push('\n');
            let mut h = str_chars(header);
            out.append(&mut h);
            out.push('\n');
            let mut add = str_chars(addition);
            out.append(&mut add);
            out.push('\n');
            proof {
                assert(out@ =~= spec_insert_into_section(
                    existing@,
                    header@,
                    addition@,
                    if capped {
                        MAX_EXTRACTED_NOTES_CHARS as int
                    } else {
                        -1int
                    },
                ));
            }
            chars_to_string(out.as_slice())
        },
    }
}

/// What truncation to a budget yields: content under the budget stays;
/// otherwise the cut falls at the last paragraph, sentence or line break
/// in the first part (when one lies past its middle), then at the last
/// space, then hard at the reduced budget, each with a truncation marker.
pub open spec fn spec_truncate(content: Seq<char>, max_chars: int) -> Seq<char> {
    if content.len() <= max_chars {
        content
    } else {
        let cut = if max_chars >= 20 {
            max_chars - 20
        } else {
            0
        };
        let head = content.take(cut);
        let p1 = last_match_idx(head, "\n\n"@);
        let p2 = last_match_idx(head, ".\n"@);
        let p3 = last_match_idx(head, ". "@);
        let p4 = last_match_idx(head, "\n"@);
        if p1 >= 0 && p1 > cut / 2 {
            content.take(p1 + 2) + "\n... (truncated)"@
        } else if p2 >= 0 && p2 > cut / 2 {
            content.take(p2 + 2) + "\n... (truncated)"@
        } else if p3 >= 0 && p3 > cut / 2 {
            content.take(p3 + 2) + "\n... (truncated)"@
        } else if p4 >= 0 && p4 > cut / 2 {
            content.take(p4 + 1) + "\n... (truncated)"@
        } else {
            let psp = last_match_idx(head, " "@);
            if psp >= 0 && psp > cut / 2 {
                content.take(psp) + " ... (truncated)"@
            } else {
                head + "... (truncated)"@
            }
        }
    }
}

/// The cut of the content at the last occurrence of a separator in its
/// head, when that occurrence lies past the head's middle: everything up
/// to and including the separator, then the truncation marker.
fn cut_at_sep(cs: &[char], head: &[char], cut: usize, sep: &str) -> (r: Option<String>)
    requires
        head@.len() == cut <= cs@.len(),
        head@ == cs@.take(cut as int),
    ensures
        match r {
            Some(out) => last_match_idx(head@, sep@) >= 0 && last_match_idx(head@, sep@)
                > cut as int / 2 && out@ == cs@.take(
                last_match_idx(head@, sep@) + sep@.len(),
            ) + "\n... (truncated)"@,
            None => !(last_match_idx(head@, sep@) >= 0 && last_match_idx(head@, sep@)
                > cut as int / 2),
        },
{
    let sc = str_chars(sep);
    match rfind_sub_idx(head, sc.as_slice()) {
        Some(pos) => {
            if pos > cut / 2 {
                let mut out = subrange_vec(cs, 0, pos + sc.len());
                let mut marker = str_chars("\n... (truncated)");
                out.append(&mut marker);
                proof {
                    assert(out@ =~= cs@.take(last_match_idx(head@, sep@) + sep@.len())
                        + "\n... (truncated)"@);
                }
                Some(chars_to_string(out.as_slice()))
            } else {
                None
            }
        },
        None => None,
    }
}

/// Truncates content to a character budget at a natural break.
#[verifier::loop_isolation(false)]
#[verifier::rlimit(60)]
pub fn truncate(content: &str, max_chars: usize) -> (r: String)
    ensures
        r@ == spec_truncate(content@, max_chars as int),
{
    let cs = str_chars(content);
    let n = cs.len();
    if n <= max_chars {
        return chars_to_string(cs.as_slice());
    }
    let cut: usize = if max_chars >= 20 {
        max_chars - 20
    } else {
        0
    };
    let head = subrange_vec(cs.as_slice(), 0, cut);
    proof {
        assert(head@ =~= content@.take(cut as int));
        reveal_strlit("\n\n");
        reveal_strlit(".\n");
        reveal_strlit(". ");
        reveal_strlit("\n");
        reveal_strlit(" ");
    }
    match cut_at_sep(cs.as_slice(), head.as_slice(), cut, "\n\n") {
        Some(out) => {
            proof {
                assert(out@ == content@.take(last_match_idx(head@, "\n\n"@) + 2)
                    + "\n... (truncated)"@);
            }
            return out;
        },
        None => {
        },
    }
    match cut_at_sep(cs.as_slice(), head.as_slice(), cut, ".\n") {
        Some(out) => {
            return out;
        },
        None => {
        },
    }
    match cut_at_sep(cs.as_slice(), head.as_slice(), cut, ". ") {
        Some(out) => {
            return out;
        },
        None => {
        },
    }
    match cut_at_sep(cs.as_slice(), head.as_slice(), cut, "\n") {
        Some(out) => {
            return out;
        },
        None => {
        },
    }
    let space = str_chars(" ");
    match rfind_sub_idx(head.as_slice(), space.as_slice()) {
        Some(pos) if pos > cut / 2 => {
            let mut out = subrange_vec(cs.as_slice(), 0, pos);
            let mut marker = str_chars(" ... (truncated)");
            out.append(&mut marker);
            proof {
                assert(out@ =~= content@.take(last_match_idx(head@, " "@)) + " ... (truncated)"@);
            }
            chars_to_string(out.as_slice())
        },
        _ => {
            let mut out = subrange_vec(cs.as_slice(), 0, cut);
            let mut marker = str_chars("... (truncated)");
            out.append(&mut marker);
            proof {
                assert(out@ =~= content@.take(cut as int) + "... (truncated)"@);
            }
            chars_to_string(out.as_slice())
        },
    }
}

/// What the assembled memory context holds: the truncated long-term
/// content under sixty percent of the budget, then today's notes in the
/// remainder when enough of it is left, joined by blank lines.
pub open spec fn spec_memory_context(
    long_term: Seq<char>,
    today: Seq<char>,
    max_chars: int,
) -> Seq<char> {
    let budget = max_chars * 6 / 10;
    let part1 = if long_term.len() > 0 {
        Some("## Long-term Memory\n"@ + spec_truncate(long_term, budget))
    } else {
        None::<Seq<char>>
    };
    let remaining = match part1 {
        Some(p) => {
            let t = spec_truncate(long_term, budget);
            if t.len() <= max_chars {
                max_chars - t.len()
            } else {
                0
            }
        },
        None => max_chars,
    };
    let part2 = if today.len() > 0 && remaining > 100 {
        Some("## Today's Notes\n"@ + spec_truncate(today, remaining))
    } else {
        None::<Seq<char>>
    };
    match (part1, part2) {
        (Some(a), Some(b)) => a + "\n\n"@ + b,
        (Some(a), None) => a,
        (None, Some(b)) => b,
        (None, None) => Seq::empty(),
    }
}

impl MemoryStore {
    /// Assembles the memory context from the long-term file and today's
    /// notes under a character budget.
    pub fn get_memory_context(&self, long_term: &str, today: &str, max_chars: usize) -> (r:
        String)
        requires
            max_chars <= 100_000_000,
        ensures
            r@ == spec_memory_context(long_term@, today@, max_chars as int),
    {
        let budget: usize = max_chars * 6 / 10;
        let lt_len = long_term.unicode_len();
        let td_len = today.unicode_len();
        let part1: Option<String> = if lt_len > 0 {
            let t = truncate(long_term, budget);
            let mut p = String::from_str("## Long-term Memory\n");
            p.append(t.as_str());
            Some(p)
        } else {
            None
        };
        let remaining: usize = match &part1 {
            Some(_) => {
                let t = truncate(long_term, budget);
                let tl = t.as_str().unicode_len();
                if tl <= max_chars {
                    max_chars - tl
                } else {
                    0
                }
            },
            None => max_chars,
        };
        let part2: Option<String> = if td_len > 0 && remaining > 100 {
            let t = truncate(today, remaining);
            let mut p = String::from_str("## Today's Notes\n");
            p.append(t.as_str());
            Some(p)
        } else {
            None
        };
        match (part1, part2) {
            (Some(a), Some(b)) => {
                let mut out = a;
                out.append("\n\n");
                out.append(b.as_str());
                out
            },
            (Some(a), None) => a,
            (None, Some(b)) => b,
            (None, None) => String::new(),
        }
    }
}

pub open spec fn is_digit_char(c: char) -> bool {
    '0' <= c && c <= '9'
}

/// A daily memory file name: `YYYY-MM-DD.md`, digits and dashes in their
/// places.
pub open spec fn spec_is_daily_memory_file(name: Seq<char>) -> bool {
    name.len() == 13 && crate::strutil::ends_with_seq(name, ".md"@) && (forall|i: int|
        0 <= i < 10 ==> (if i == 4 || i == 7 {
            name[i] == '-'
        } else {
            is_digit_char(name[i])
        }))
}

/// Whether a file name is a dated daily memory file.
pub fn is_daily_memory_file(name: &str) -> (r: bool)
    ensures
        r == spec_is_daily_memory_file(name@),
{
    let cs = str_chars(name);
    if cs.len() != 13 {
        return false;
    }
    let md = str_chars(".md");
    if !crate::strutil::chars_ends_with(cs.as_slice(), md.as_slice()) {
        return false;
    }
    let mut i: usize = 0;
    while i < 10
        invariant
            i <= 10,
            cs@ == name@,
            cs@.len() == 13,
            forall|j: int|
                0 <= j < i ==> (if j == 4 || j == 7 {
                    name@[j] == '-'
                } else {
                    is_digit_char(name@[j])
                }),
        decreases 10 - i,
    {
        let c = cs[i];
        if i == 4 || i == 7 {
            if c != '-' {
                return false;
            }
        } else {
            if !('0' <= c && c <= '9') {
                return false;
            }
        }
        i = i + 1;
    }
    true
}

/// A path the memory tools may read: the long-term file or a daily file.
pub open spec fn spec_allowed_memory_path(name: Seq<char>) -> bool {
    name == "MEMORY.md"@ || spec_is_daily_memory_file(name)
}

/// Whether the memory tools may read this path.
pub fn allowed_memory_path(name: &str) -> (r: bool)
    ensures
        r == spec_allowed_memory_path(name@),
{
    str_eq(name, "MEMORY.md") || is_daily_memory_file(name)
}

/// One hit of the memory keyword search.
pub struct MemorySearchResult {
    pub path: String,
    pub snippet: String,
}

/// Spec shape of one search hit.
pub struct MemorySearchResultV {
    pub path: Seq<char>,
    pub snippet: Seq<char>,
}

impl View for MemorySearchResult {
    type V = MemorySearchResultV;

    open spec fn view(&self) -> MemorySearchResultV {
        MemorySearchResultV { path: self.path@, snippet: self.snippet@ }
    }
}

pub open spec fn hits_view(v: Seq<MemorySearchResult>) -> Seq<MemorySearchResultV> {
    v.map_values(|h: MemorySearchResult| h@)
}

pub open spec fn sources_view(v: Seq<(String, String)>) -> Seq<(Seq<char>, Seq<char>)> {
    v.map_values(|p: (String, String)| (p.0@, p.1@))
}

/// One source's pass of the search: every non-blank line whose lowered
/// text holds the lowered query becomes a hit, until the cap is reached.
pub open spec fn line_fold(
    ls: Seq<Seq<char>>,
    path: Seq<char>,
    q: Seq<char>,
    max: int,
    acc: Seq<MemorySearchResultV>,
) -> Seq<MemorySearchResultV>
    decreases ls.len(),
{
    if ls.len() == 0 {
        acc
    } else {
        let line = ls[0];
        if crate::strutil::contains_seq(lower_of(line), q) && trim_seq(line).len() > 0 {
            let acc2 = acc.push(MemorySearchResultV { path, snippet: trim_seq(line) });
            if acc2.len() >= max {
                acc2
            } else {
                line_fold(ls.drop_first(), path, q, max, acc2)
            }
        } else {
            line_fold(ls.drop_first(), path, q, max, acc)
        }
    }
}

pub open spec fn search_fold(
    sources: Seq<(Seq<char>, Seq<char>)>,
    q: Seq<char>,
    max: int,
    acc: Seq<MemorySearchResultV>,
) -> Seq<MemorySearchResultV>
    decreases sources.len(),
{
    if sources.len() == 0 {
        acc
    } else {
        search_fold(
            sources.drop_first(),
            q,
            max,
            line_fold(lines_seq(sources[0].1), sources[0].0, q, max, acc),
        )
    }
}

/// What the simple keyword search yields over memory sources: hits in
/// source and line order, the query and lines compared lowercased, at most
/// `max_results` hits gathered per source scan.
pub open spec fn spec_search_memory(
    sources: Seq<(Seq<char>, Seq<char>)>,
    query: Seq<char>,
    max_results: int,
) -> Seq<MemorySearchResultV> {
    search_fold(sources, lower_of(query), max_results, Seq::empty())
}

/// Scans memory sources for lines holding the query, case-insensitively.
#[verifier::loop_isolation(false)]
pub fn search_memory_lines(
    sources: &Vec<(String, String)>,
    query: &str,
    max_results: usize,
) -> (r: Vec<MemorySearchResult>)
    ensures
        hits_view(r@) == spec_search_memory(sources_view(sources@), query@, max_results as int),
{
    let ghost gs = sources_view(sources@);
    let q_lower = lowercase(query);
    let qc = str_chars(q_lower.as_str());
    let mut results: Vec<MemorySearchResult> = Vec::new();
    let mut i: usize = 0;
    proof {
        assert(gs.skip(0) =~= gs);
        assert(hits_view(results@) =~= Seq::<MemorySearchResultV>::empty());
    }
    while i < sources.len()
        invariant
            i <= gs.len(),
            gs.len() == sources@.len(),
            qc@ == lower_of(query@),
            search_fold(gs.skip(i as int), lower_of(query@), max_results as int, hits_view(
                results@,
            )) == spec_search_memory(gs, query@, max_results as int),
        decreases gs.len() - i,
    {
        proof {
            assert(gs.skip(i as int)[0] == gs[i as int]);
            assert(gs.skip(i as int).drop_first() =~= gs.skip(i + 1));
            assert(gs[i as int] == (sources@[i as int].0@, sources@[i as int].1@));
        }
        let content = str_chars(sources[i].1.as_str());
        let ls = lines_of(content.as_slice());
        let ghost gls = lines_seq(gs[i as int].1);
        let mut j: usize = 0;
        proof {
            assert(gls.skip(0) =~= gls);
        }
        #[verifier::loop_isolation(true)]
        while j < ls.len()
            invariant_except_break
                j <= gls.len(),
                gls == lines_seq(gs[i as int].1),
                gls.len() == ls@.len(),
                ls@.map_values(|p: Vec<char>| p@) == gls,
                i < gs.len(),
                gs == sources_view(sources@),
                gs.len() == sources@.len(),
                gs[i as int] == (sources@[i as int].0@, sources@[i as int].1@),
                qc@ == lower_of(query@),
                search_fold(gs.skip(i + 1), lower_of(query@), max_results as int, line_fold(
                    gls.skip(j as int),
                    gs[i as int].0,
                    lower_of(query@),
                    max_results as int,
                    hits_view(results@),
                )) == spec_search_memory(gs, query@, max_results as int),
            ensures
                search_fold(
                    gs.skip(i + 1),
                    lower_of(query@),
                    max_results as int,
                    hits_view(results@),
                ) == spec_search_memory(gs, query@, max_results as int),
            decreases gls.len() - j,
        {
            let ghost rem = gls.skip(j as int);
            let ghost acc_pre = hits_view(results@);
            let ghost q = lower_of(query@);
            let ghost pathv = gs[i as int].0;
            let ghost maxv = max_results as int;
            proof {
                assert(rem[0] == gls[j as int]);
                assert(rem.drop_first() =~= gls.skip(j + 1));
                assert(ls@.map_values(|p: Vec<char>| p@)[j as int] == ls@[j as int]@);
            }
            let line_str = chars_to_string(ls[j].as_slice());
            let lowered = lowercase(line_str.as_str());
            let lc = str_chars(lowered.as_str());
            let trimmed = trim_chars(ls[j].as_slice());
            let found = crate::strutil::find_sub(lc.as_slice(), qc.as_slice()).is_some();
            proof {
                assert(found == crate::strutil::contains_seq(lower_of(gls[j as int]), q));
            }
            let hit = found && trimmed.len() > 0;
            if hit {
                results.push(
                    MemorySearchResult {
                        path: String::from_str(sources[i].0.as_str()),
                        snippet: chars_to_string(trimmed.as_slice()),
                    },
                );
                let ghost hitv = MemorySearchResultV {
                    path: pathv,
                    snippet: trim_seq(gls[j as int]),
                };
                proof {
                    assert(hits_view(results@) =~= acc_pre.push(hitv));
                }
                if results.len() >= max_results {
                    proof {
                        assert(line_fold(rem, pathv, q, maxv, acc_pre) == acc_pre.push(hitv));
                    }
                    break ;
                }
                proof {
                    assert(line_fold(rem, pathv, q, maxv, acc_pre) == line_fold(
                        gls.skip(j + 1),
                        pathv,
                        q,
                        maxv,
                        acc_pre.push(hitv),
                    ));
                }
            } else {
                proof {
                    assert(line_fold(rem, pathv, q, maxv, acc_pre) == line_fold(
                        gls.skip(j + 1),
                        pathv,
                        q,
                        maxv,
                        acc_pre,
                    ));
                }
            }
            j = j + 1;
        }
        i = i + 1;
    }
    proof {
        assert(gs.skip(gs.len() as int) =~= Seq::<(Seq<char>, Seq<char>)>::empty());
    }
    results
}

/// A pair inserted before the first pair whose name is not above its own:
/// newest-first ordering of dated files.
pub open spec fn insert_pair_desc(
    x: (Seq<char>, Seq<char>),
    s: Seq<(Seq<char>, Seq<char>)>,
) -> Seq<(Seq<char>, Seq<char>)>
    decreases s.len(),
{
    if s.len() == 0 {
        seq![x]
    } else if crate::manager::seq_char_lt(x.0, s[0].0) {
        seq![s[0]] + insert_pair_desc(x, s.drop_first())
    } else {
        seq![x] + s
    }
}

/// Insertion sort of name/content pairs, newest (greatest) name first.
pub open spec fn sort_pairs_desc(xs: Seq<(Seq<char>, Seq<char>)>) -> Seq<
    (Seq<char>, Seq<char>),
>
    decreases xs.len(),
{
    if xs.len() == 0 {
        Seq::empty()
    } else {
        insert_pair_desc(xs[0], sort_pairs_desc(xs.drop_first()))
    }
}

#[verifier::loop_isolation(false)]
fn insert_pair_into_desc(sorted: &Vec<(String, String)>, x: (String, String)) -> (r: Vec<
    (String, String),
>)
    ensures
        sources_view(r@) == insert_pair_desc((x.0@, x.1@), sources_view(sorted@)),
{
    let ghost gs = sources_view(sorted@);
    let ghost gx = (x.0@, x.1@);
    let mut out: Vec<(String, String)> = Vec::new();
    let mut j: usize = 0;
    proof {
        assert(gs.skip(0) =~= gs);
        assert(sources_view(out@) + insert_pair_desc(gx, gs) =~= insert_pair_desc(gx, gs));
    }
    while j < sorted.len() && crate::manager::str_lt(x.0.as_str(), sorted[j].0.as_str())
        invariant
            j <= gs.len(),
            insert_pair_desc(gx, gs) == sources_view(out@) + insert_pair_desc(
                gx,
                gs.skip(j as int),
            ),
            sources_view(out@).len() == j,
        decreases gs.len() - j,
    {
        proof {
            assert(gs.skip(j as int)[0] == gs[j as int]);
            assert(gs.skip(j as int).drop_first() =~= gs.skip(j + 1));
            assert(gs[j as int] == (sorted@[j as int].0@, sorted@[j as int].1@));
        }
        out.push(
            (
                String::from_str(sorted[j].0.as_str()),
                String::from_str(sorted[j].1.as_str()),
            ),
        );
        proof {
            assert(sources_view(out@) =~= sources_view(out@).drop_last().push(gs[j as int]));
            assert(sources_view(out@).drop_last() + (seq![gs[j as int]] + insert_pair_desc(
                gx,
                gs.skip(j + 1),
            )) =~= sources_view(out@) + insert_pair_desc(gx, gs.skip(j + 1)));
        }
        j = j + 1;
    }
    proof {
        assert(insert_pair_desc(gx, gs.skip(j as int)) =~= seq![gx] + gs.skip(j as int)) by {
            if gs.skip(j as int).len() > 0 {
                assert(gs.skip(j as int)[0] == gs[j as int]);
            }
        }
    }
    out.push(x);
    let mut k: usize = j;
    while k < sorted.len()
        invariant
            j <= k <= gs.len(),
            sources_view(out@) == insert_pair_desc(gx, gs).take(k + 1),
        decreases gs.len() - k,
    {
        proof {
            assert(gs[k as int] == (sorted@[k as int].0@, sorted@[k as int].1@));
            assert(insert_pair_desc(gx, gs)[k + 1] == gs[k as int]) by {
                assert(insert_pair_desc(gx, gs) == sources_view(out@).take(j as int)
                    + insert_pair_desc(gx, gs.skip(j as int)));
            }
        }
        out.push(
            (
                String::from_str(sorted[k].0.as_str()),
                String::from_str(sorted[k].1.as_str()),
            ),
        );
        proof {
            assert(sources_view(out@) =~= insert_pair_desc(gx, gs).take(k + 2));
        }
        k = k + 1;
    }
    proof {
        assert(insert_pair_desc(gx, gs).len() == gs.len() + 1);
        assert(sources_view(out@) =~= insert_pair_desc(gx, gs));
    }
    out
}

/// The dated files a search scans, newest first.
#[verifier::loop_isolation(false)]
fn sort_dated_desc(xs: &Vec<(String, String)>) -> (r: Vec<(String, String)>)
    ensures
        sources_view(r@) == sort_pairs_desc(sources_view(xs@)),
{
    let ghost gx = sources_view(xs@);
    let mut r: Vec<(String, String)> = Vec::new();
    let mut i: usize = xs.len();
    proof {
        assert(gx.skip(xs@.len() as int) =~= Seq::<(Seq<char>, Seq<char>)>::empty());
    }
    while i > 0
        invariant
            i <= gx.len(),
            gx == sources_view(xs@),
            gx.len() == xs@.len(),
            sources_view(r@) == sort_pairs_desc(gx.skip(i as int)),
        decreases i,
    {
        i = i - 1;
        proof {
            assert(gx.skip(i as int)[0] == gx[i as int]);
            assert(gx.skip(i as int).drop_first() =~= gx.skip(i + 1));
            assert(gx[i as int] == (xs@[i as int].0@, xs@[i as int].1@));
        }
        r = insert_pair_into_desc(
            &r,
            (String::from_str(xs[i].0.as_str()), String::from_str(xs[i].1.as_str())),
        );
    }
    proof {
        assert(gx.skip(0) =~= gx);
    }
    r
}

/// The dated entries of a directory listing that are daily memory files,
/// in listing order.
pub open spec fn spec_dated_entries(listing: Seq<(Seq<char>, Seq<char>)>) -> Seq<
    (Seq<char>, Seq<char>),
> {
    listing.filter(
        |p: (Seq<char>, Seq<char>)| p.0 != "MEMORY.md"@ && spec_allowed_memory_path(p.0),
    )
}

/// What source collection yields: the long-term file first when it has
/// content, then every daily file with non-blank content, newest first,
/// each path under the `memory/` prefix.
pub open spec fn spec_memory_sources(
    long_term: Seq<char>,
    listing: Seq<(Seq<char>, Seq<char>)>,
) -> Seq<(Seq<char>, Seq<char>)> {
    let first: Seq<(Seq<char>, Seq<char>)> = if long_term.len() > 0 {
        seq![("memory/MEMORY.md"@, long_term)]
    } else {
        Seq::empty()
    };
    let dated = sort_pairs_desc(spec_dated_entries(listing)).filter(
        |p: (Seq<char>, Seq<char>)| trim_seq(p.1).len() > 0,
    ).map_values(|p: (Seq<char>, Seq<char>)| ("memory/"@ + p.0, p.1));
    first + dated
}

/// Collects the memory files a search scans from the long-term content
/// and a raw directory listing of name/content pairs.
#[verifier::loop_isolation(false)]
pub fn collect_memory_file_sources(
    long_term: &str,
    listing: &Vec<(String, String)>,
) -> (r: Vec<(String, String)>)
    ensures
        sources_view(r@) == spec_memory_sources(long_term@, sources_view(listing@)),
{
    let ghost gl = sources_view(listing@);
    let mut out: Vec<(String, String)> = Vec::new();
    if long_term.unicode_len() > 0 {
        out.push((String::from_str("memory/MEMORY.md"), String::from_str(long_term)));
    }
    let ghost first = sources_view(out@);
    proof {
        if long_term@.len() > 0 {
            assert(first =~= seq![("memory/MEMORY.md"@, long_term@)]);
        } else {
            assert(first =~= Seq::<(Seq<char>, Seq<char>)>::empty());
        }
    }
    let mut dated: Vec<(String, String)> = Vec::new();
    let mut i: usize = 0;
    proof {
        reveal_with_fuel(Seq::<_>::filter, 1);
        assert(gl.take(0) =~= Seq::<(Seq<char>, Seq<char>)>::empty());
        assert(sources_view(dated@) =~= gl.take(0).filter(
            |p: (Seq<char>, Seq<char>)| p.0 != "MEMORY.md"@ && spec_allowed_memory_path(p.0),
        ));
    }
    while i < listing.len()
        invariant
            i <= gl.len(),
            gl.len() == listing@.len(),
            sources_view(dated@) == gl.take(i as int).filter(
                |p: (Seq<char>, Seq<char>)| p.0 != "MEMORY.md"@ && spec_allowed_memory_path(
                    p.0,
                ),
            ),
        decreases gl.len() - i,
    {
        proof {
            reveal_with_fuel(Seq::<_>::filter, 1);
            assert(gl.take(i + 1).drop_last() =~= gl.take(i as int));
            assert(gl.take(i + 1).last() == gl[i as int]);
            assert(gl[i as int] == (listing@[i as int].0@, listing@[i as int].1@));
        }
        let name = &listing[i].0;
        if !str_eq(name.as_str(), "MEMORY.md") && allowed_memory_path(name.as_str()) {
            dated.push(
                (String::from_str(name.as_str()), String::from_str(listing[i].1.as_str())),
            );
            proof {
                assert(sources_view(dated@) =~= sources_view(dated@).drop_last().push(
                    gl[i as int],
                ));
            }
        }
        i = i + 1;
    }
    proof {
        assert(gl.take(gl.len() as int) =~= gl);
    }
    let sorted = sort_dated_desc(&dated);
    let ghost gsorted = sources_view(sorted@);
    let mut j: usize = 0;
    proof {
        reveal_with_fuel(Seq::<_>::filter, 1);
        assert(gsorted.take(0) =~= Seq::<(Seq<char>, Seq<char>)>::empty());
    }
    while j < sorted.len()
        invariant
            j <= gsorted.len(),
            gsorted == sources_view(sorted@),
            gsorted.len() == sorted@.len(),
            sources_view(out@) == first + gsorted.take(j as int).filter(
                |p: (Seq<char>, Seq<char>)| trim_seq(p.1).len() > 0,
            ).map_values(|p: (Seq<char>, Seq<char>)| ("memory/"@ + p.0, p.1)),
        decreases gsorted.len() - j,
    {
        proof {
            reveal_with_fuel(Seq::<_>::filter, 1);
            assert(gsorted.take(j + 1).drop_last() =~= gsorted.take(j as int));
            assert(gsorted.take(j + 1).last() == gsorted[j as int]);
            assert(gsorted[j as int] == (sorted@[j as int].0@, sorted@[j as int].1@));
        }
        let content = &sorted[j].1;
        let trimmed = trim_str(content.as_str());
        if trimmed.as_str().unicode_len() > 0 {
            let mut path = String::from_str("memory/");
            path.append(sorted[j].0.as_str());
            out.push((path, String::from_str(content.as_str())));
            proof {
                let fpred = |p: (Seq<char>, Seq<char>)| trim_seq(p.1).len() > 0;
                let m = |p: (Seq<char>, Seq<char>)| ("memory/"@ + p.0, p.1);
                assert(gsorted.take(j + 1).filter(fpred) =~= gsorted.take(j as int).filter(
                    fpred,
                ).push(gsorted[j as int]));
                assert(gsorted.take(j + 1).filter(fpred).map_values(m) =~= gsorted.take(
                    j as int,
                ).filter(fpred).map_values(m).push(m(gsorted[j as int])));
                assert(sources_view(out@) =~= sources_view(out@).drop_last().push(
                    m(gsorted[j as int]),
                ));
                assert((first + gsorted.take(j as int).filter(fpred).map_values(m)).push(
                    m(gsorted[j as int]),
                ) =~= first + gsorted.take(j as int).filter(fpred).map_values(m).push(
                    m(gsorted[j as int]),
                ));
                assert(sources_view(out@) =~= first + gsorted.take(j + 1).filter(
                    fpred,
                ).map_values(m));
            }
        } else {
            proof {
                let fpred = |p: (Seq<char>, Seq<char>)| trim_seq(p.1).len() > 0;
                assert(gsorted.take(j + 1).filter(fpred) =~= gsorted.take(j as int).filter(
                    fpred,
                ));
            }
        }
        j = j + 1;
    }
    proof {
        assert(gsorted.take(gsorted.len() as int) =~= gsorted);
    }
    out
}

/// What line slicing yields: the whole content without a range, else the
/// requested lines joined by newlines.
pub open spec fn spec_memory_slice(
    content: Seq<char>,
    from: Option<int>,
    lines: Option<int>,
) -> Seq<char> {
    match (from, lines) {
        (Some(f), Some(n)) => {
            let from_idx = if f >= 1 {
                f - 1
            } else {
                0
            };
            let ls = lines_seq(content);
            let start = if from_idx <= ls.len() {
                from_idx
            } else {
                ls.len() as int
            };
            let rest = ls.skip(start);
            let taken = if n <= rest.len() {
                rest.take(n)
            } else {
                rest
            };
            join_seq(taken, seq!['\n'])
        },
        _ => content,
    }
}

/// Slices the requested lines out of a memory file's content.
#[verifier::loop_isolation(false)]
pub fn read_memory_slice(content: &str, from: Option<usize>, lines: Option<usize>) -> (r:
    String)
    ensures
        r@ == spec_memory_slice(
            content@,
            match from {
                Some(f) => Some(f as int),
                None => None,
            },
            match lines {
                Some(n) => Some(n as int),
                None => None,
            },
        ),
{
    match (from, lines) {
        (Some(f), Some(n)) => {
            let from_idx: usize = if f >= 1 {
                f - 1
            } else {
                0
            };
            let cs = str_chars(content);
            let ls = lines_of(cs.as_slice());
            let ghost gls = lines_seq(content@);
            let start: usize = if from_idx <= ls.len() {
                from_idx
            } else {
                ls.len()
            };
            let end: usize = if n <= ls.len() - start {
                start + n
            } else {
                ls.len()
            };
            let mut pieces: Vec<String> = Vec::new();
            let mut i: usize = start;
            proof {
                assert(strings_view(pieces@) =~= gls.skip(start as int).take(0));
            }
            while i < end
                invariant
                    start <= i <= end <= gls.len(),
                    gls.len() == ls@.len(),
                    ls@.map_values(|p: Vec<char>| p@) == gls,
                    strings_view(pieces@) == gls.skip(start as int).take(i - start),
                decreases end - i,
            {
                proof {
                    assert(ls@.map_values(|p: Vec<char>| p@)[i as int] == ls@[i as int]@);
                    assert(gls.skip(start as int)[i - start] == gls[i as int]);
                    assert(gls.skip(start as int).take(i - start + 1) =~= gls.skip(
                        start as int,
                    ).take(i - start).push(gls[i as int]));
                }
                pieces.push(chars_to_string(ls[i].as_slice()));
                proof {
                    assert(strings_view(pieces@) =~= strings_view(pieces@).drop_last().push(
                        gls[i as int],
                    ));
                }
                i = i + 1;
            }
            let sep = chars_to_string(&['\n']);
            proof {
                assert(sep@ =~= seq!['\n']);
                let rest = gls.skip(start as int);
                if n <= rest.len() {
                    assert(strings_view(pieces@) =~= rest.take(n as int));
                } else {
                    assert(strings_view(pieces@) =~= rest.take(rest.len() as int));
                    assert(rest.take(rest.len() as int) =~= rest);
                }
            }
            join_strings(&pieces, sep.as_str())
        },
        _ => String::from_str(content),
    }
}

/// The memory keyword search tool over a store's files.
pub struct MemorySearchTool {
    pub memory_store: MemoryStore,
}

impl MemorySearchTool {
    /// A search tool over the given store.
    pub fn new(memory_store: MemoryStore) -> (r: MemorySearchTool)
        ensures
            r.memory_store.memory_dir@ == memory_store.memory_dir@,
    {
        MemorySearchTool { memory_store }
    }
}

/// The arguments of the memory search tool.
pub struct MemorySearchArgs {
    pub query: String,
    pub max_results: usize,
}

/// The default number of search results.
pub fn default_max_results() -> (r: usize)
    ensures
        r == 6,
{
    6
}

/// The search cap applied to a requested result count.
pub fn clamp_max_results(requested: usize) -> (r: usize)
    ensures
        r == if requested < 20 {
            requested
        } else {
            20usize
        },
{
    if requested < 20 {
        requested
    } else {
        20
    }
}

/// The memory file reader tool.
pub struct MemoryGetTool {
    pub memory_store: MemoryStore,
}

impl MemoryGetTool {
    /// A reader tool over the given store.
    pub fn new(memory_store: MemoryStore) -> (r: MemoryGetTool)
        ensures
            r.memory_store.memory_dir@ == memory_store.memory_dir@,
    {
        MemoryGetTool { memory_store }
    }
}

/// The arguments of the memory reader tool.
pub struct MemoryGetArgs {
    pub path: String,
    pub from: Option<usize>,
    pub lines: Option<usize>,
}

/// The error text for a path outside the memory layout.
pub fn memory_path_error(path: &str) -> (r: String)
    ensures
        r@ == "Error: path must be MEMORY.md or YYYY-MM-DD.md, got: "@ + path@,
{
    let mut m = String::from_str("Error: path must be MEMORY.md or YYYY-MM-DD.md, got: ");
    m.append(path);
    m
}

/// The error text for a memory file that does not exist.
pub fn memory_not_found_error(path: &str) -> (r: String)
    ensures
        r@ == "Error: file not found: "@ + path@,
{
    let mut m = String::from_str("Error: file not found: ");
    m.append(path);
    m
}

/// Which store the remember tool writes to.
pub enum RememberBackend {
    /// The vector store, driven outside this crate.
    Vector,
    /// The plain-text file store.
    File(MemoryStore),
}

/// The remember tool: saves one fact to long-term memory.
pub struct RememberTool {
    pub backend: RememberBackend,
}

impl RememberTool {
    /// A remember tool backed by the vector store.
    pub fn new_vector() -> (r: RememberTool)
        ensures
            r.backend is Vector,
    {
        RememberTool { backend: RememberBackend::Vector }
    }

    /// A remember tool backed by the file store.
    pub fn new_file(memory_store: MemoryStore) -> (r: RememberTool)
        ensures
            r.backend is File,
    {
        RememberTool { backend: RememberBackend::File(memory_store) }
    }
}

/// The arguments of the remember tool.
pub struct RememberArgs {
    pub content: String,
}

/// The reply of a successful remember call.
pub fn remember_response(content: &str) -> (r: String)
    ensures
        r@ == "Remembered: "@ + content@,
{
    let mut m = String::from_str("Remembered: ");
    m.append(content);
    m
}

/// The reply of a remember call with blank content.
pub fn remember_empty_error() -> (r: String)
    ensures
        r@ == "Error: content cannot be empty"@,
{
    String::from_str("Error: content cannot be empty")
}

} // verus!
