//! Serialization of a repository into one of four textual documents.
//!
//! The four formats are one template family: a header with a generation
//! timestamp, the tree text verbatim, one section per file with its path
//! and full content, and a footer. The markdown format fences each
//! content in backticks and lengthens the fence when the content itself
//! contains one; the structured formats escape every string. Every
//! renderer's output is pinned down exactly, so rendering is
//! deterministic given the repository and the timestamp.

use vstd::prelude::*;
use vstd::string::*;
use crate::cli::OutputFormat;
use crate::error::JockeyError;
use crate::text::{
    contains_str, first_index_of, has_substring, last_index_of, lemma_first_index_at,
    lemma_first_index_none, lemma_last_index_at, lemma_last_index_none, occurs_at, str_to_string,
};
use crate::paths::base_of;

verus! {

/// One materialized file: its path and its text content.
pub struct FileEntry {
    pub path: String,
    pub content: String,
}

/// The mathematical image of a [`FileEntry`].
#[verifier::ext_equal]
pub struct FileEntryV {
    pub path: Seq<char>,
    pub content: Seq<char>,
}

impl View for FileEntry {
    type V = FileEntryV;

    open spec fn view(&self) -> FileEntryV {
        FileEntryV { path: self.path@, content: self.content@ }
    }
}

impl DeepView for FileEntry {
    type V = FileEntryV;

    open spec fn deep_view(&self) -> FileEntryV {
        self.view()
    }
}

/// The handoff bundle to the formatter: the rendered tree text and the
/// materialized files in discovery order.
pub struct Repository {
    pub tree: String,
    pub files: Vec<FileEntry>,
}

/// The mathematical image of a [`Repository`].
#[verifier::ext_equal]
pub struct RepositoryV {
    pub tree: Seq<char>,
    pub files: Seq<FileEntryV>,
}

impl View for Repository {
    type V = RepositoryV;

    open spec fn view(&self) -> RepositoryV {
        RepositoryV { tree: self.tree@, files: self.files.deep_view() }
    }
}

/// A line with its carriage return stripped, as the line splitter sees
/// it.
pub open spec fn strip_cr(l: Seq<char>) -> Seq<char> {
    if l.len() > 0 && l.last() == '\r' {
        l.drop_last()
    } else {
        l
    }
}

/// The content with every line terminated by exactly one newline:
/// lines are split at `\n` (a preceding `\r` is dropped), and the final
/// line gets a newline whether or not it had one.
pub open spec fn norm_lines(s: Seq<char>) -> Seq<char>
    decreases s.len(),
    via norm_lines_decreases
{
    if s.len() == 0 {
        Seq::empty()
    } else {
        let i = first_index_of(s, '\n');
        if i < 0 {
            s + seq!['\n']
        } else {
            strip_cr(s.take(i)) + seq!['\n'] + norm_lines(s.skip(i + 1))
        }
    }
}

#[via_fn]
proof fn norm_lines_decreases(s: Seq<char>) {
    crate::text::lemma_first_index_range(s, '\n');
}

/// A run of `n` backticks.
pub open spec fn tick_seq(n: nat) -> Seq<char>
    decreases n,
{
    if n == 0 {
        Seq::empty()
    } else {
        tick_seq((n - 1) as nat).push('`')
    }
}

/// The number of backticks at the head of `s`.
pub open spec fn leading_ticks(s: Seq<char>) -> nat
    decreases s.len(),
{
    if s.len() > 0 && s[0] == '`' {
        1 + leading_ticks(s.drop_first())
    } else {
        0
    }
}

/// The length of the longest backtick run anywhere in `s`.
pub open spec fn max_tick_run(s: Seq<char>) -> nat
    decreases s.len(),
{
    if s.len() == 0 {
        0
    } else {
        let here = leading_ticks(s);
        let rest = max_tick_run(s.drop_first());
        if here > rest {
            here
        } else {
            rest
        }
    }
}

/// The fence length used around a content: at least three backticks,
/// and always strictly longer than any backtick run the content itself
/// contains, so the content can never terminate its own block.
pub open spec fn fence_len_for(content: Seq<char>) -> nat {
    if max_tick_run(content) + 1 > 3 {
        max_tick_run(content) + 1
    } else {
        3
    }
}

/// The fence used around a content.
pub open spec fn fence_for(content: Seq<char>) -> Seq<char> {
    tick_seq(fence_len_for(content))
}

pub proof fn lemma_tick_seq(n: nat)
    ensures
        tick_seq(n).len() == n,
        forall|k: int| 0 <= k < n ==> tick_seq(n)[k] == '`',
    decreases n,
{
    if n > 0 {
        lemma_tick_seq((n - 1) as nat);
    }
}

proof fn lemma_leading_ticks_bound(u: Seq<char>)
    ensures
        leading_ticks(u) <= u.len(),
        forall|k: int| 0 <= k < leading_ticks(u) ==> u[k] == '`',
    decreases u.len(),
{
    if u.len() > 0 && u[0] == '`' {
        lemma_leading_ticks_bound(u.drop_first());
        assert forall|k: int| 0 <= k < leading_ticks(u) implies u[k] == '`' by {
            if k > 0 {
                assert(u.drop_first()[k - 1] == '`');
            }
        }
    }
}

proof fn lemma_leading_ticks_ge(u: Seq<char>, l: nat)
    requires
        l <= u.len(),
        forall|k: int| 0 <= k < l ==> u[k] == '`',
    ensures
        leading_ticks(u) >= l,
    decreases l,
{
    if l > 0 {
        assert(u[0] == '`');
        assert(forall|k: int| 0 <= k < l - 1 ==> u.drop_first()[k] == '`');
        lemma_leading_ticks_ge(u.drop_first(), (l - 1) as nat);
    }
}

proof fn lemma_max_run_ge(s: Seq<char>, i: int)
    requires
        0 <= i <= s.len(),
    ensures
        leading_ticks(s.skip(i)) <= max_tick_run(s),
    decreases i,
{
    if i == 0 {
        assert(s.skip(0) =~= s);
    } else {
        assert(s.skip(i) =~= s.drop_first().skip(i - 1));
        lemma_max_run_ge(s.drop_first(), i - 1);
    }
}

proof fn lemma_max_run_witness(s: Seq<char>)
    ensures
        exists|i: int|
            0 <= i <= s.len() && leading_ticks(#[trigger] s.skip(i)) == max_tick_run(s),
    decreases s.len(),
{
    if s.len() == 0 {
        assert(s.skip(0) =~= s);
        assert(leading_ticks(s.skip(0)) == max_tick_run(s));
    } else {
        let here = leading_ticks(s);
        let rest = max_tick_run(s.drop_first());
        if here >= rest {
            assert(s.skip(0) =~= s);
            assert(leading_ticks(s.skip(0)) == max_tick_run(s));
        } else {
            lemma_max_run_witness(s.drop_first());
            let j = choose|j: int|
                0 <= j <= s.drop_first().len() && leading_ticks(#[trigger] s.drop_first().skip(j))
                    == max_tick_run(s.drop_first());
            assert(s.skip(j + 1) =~= s.drop_first().skip(j));
            assert(leading_ticks(s.skip(j + 1)) == max_tick_run(s));
        }
    }
}

/// A backtick run of length `l` occurs in `s` exactly when `s` holds a
/// run at least that long.
pub proof fn lemma_fence_occurs(s: Seq<char>, l: nat)
    requires
        l >= 1,
    ensures
        has_substring(s, tick_seq(l)) <==> l <= max_tick_run(s),
{
    lemma_tick_seq(l);
    if l <= max_tick_run(s) {
        lemma_max_run_witness(s);
        let i = choose|i: int|
            0 <= i <= s.len() && leading_ticks(#[trigger] s.skip(i)) == max_tick_run(s);
        lemma_leading_ticks_bound(s.skip(i));
        assert(forall|k: int| 0 <= k < l ==> s.skip(i)[k] == '`');
        assert(s.subrange(i, i + l as int) =~= tick_seq(l));
        assert(occurs_at(s, tick_seq(l), i));
    }
    if has_substring(s, tick_seq(l)) {
        let i = choose|i: int| occurs_at(s, tick_seq(l), i);
        assert(forall|k: int|
            0 <= k < l ==> s.skip(i)[k] == s.subrange(i, i + l as int)[k]);
        assert(forall|k: int| 0 <= k < l ==> s.skip(i)[k] == '`');
        lemma_leading_ticks_ge(s.skip(i), l);
        lemma_max_run_ge(s, i);
    }
}

/// Builds the fence for a content: three backticks, grown while the
/// content still contains a run of the fence's length.
pub fn fence_string(content: &str) -> (r: String)
    ensures
        r@ == fence_for(content@),
{
    let mut fence = str_to_string("```");
    proof {
        reveal_strlit("```");
        lemma_tick_seq(3);
        assert(fence@ =~= tick_seq(3));
    }
    loop
        invariant_except_break
            fence@.len() >= 3,
            fence@ == tick_seq(fence@.len() as nat),
            fence@.len() <= fence_len_for(content@),
        ensures
            fence@ == fence_for(content@),
        decreases fence_len_for(content@) - fence@.len(),
    {
        if !contains_str(content, fence.as_str()) {
            proof {
                if fence@.len() < fence_len_for(content@) {
                    assert(fence@.len() <= max_tick_run(content@));
                    lemma_fence_occurs(content@, fence@.len() as nat);
                }
            }
            break ;
        }
        proof {
            lemma_fence_occurs(content@, fence@.len() as nat);
            assert(fence@.len() <= max_tick_run(content@));
            assert(fence@.len() + 1 <= fence_len_for(content@));
        }
        fence.push('`');
    }
    fence
}

/// The extension of the file named by `path`: what follows the last dot
/// of its final segment, empty when there is no dot or only a leading
/// one.
pub open spec fn ext_of(path: Seq<char>) -> Seq<char> {
    let name = base_of(path);
    let i = last_index_of(name, '.');
    if i <= 0 {
        Seq::empty()
    } else {
        name.skip(i + 1)
    }
}

/// The footer note appended to every document.
pub open spec fn footer_note() -> Seq<char> {
    "Jockey image"@
}

/// One markdown file section: a heading with the path, a fenced content
/// block tagged with the extension, the content line-normalized.
pub open spec fn md_file_section(f: FileEntryV) -> Seq<char> {
    "## File: "@ + f.path + "\n\n"@ + fence_for(f.content) + ext_of(f.path) + seq!['\n']
        + norm_lines(f.content) + fence_for(f.content) + "\n\n"@
}

/// The markdown sections of all files, in order.
pub open spec fn md_sections(files: Seq<FileEntryV>) -> Seq<char>
    decreases files.len(),
{
    if files.len() == 0 {
        Seq::empty()
    } else {
        md_file_section(files[0]) + md_sections(files.drop_first())
    }
}

/// The whole markdown document.
pub open spec fn md_doc(repo: RepositoryV, ts: Seq<char>) -> Seq<char> {
    "# Jockey Image\n\n"@ + "Generated: "@ + ts + "\n\n"@ + "## Repository Structure\n\n"@
        + "```\n"@ + repo.tree + "```\n\n"@ + md_sections(repo.files) + "\n\n---\n\n> "@
        + footer_note() + seq!['\n']
}

/// One plain-text file section.
pub open spec fn txt_file_section(f: FileEntryV) -> Seq<char> {
    "File: "@ + f.path + seq!['\n'] + "----------------------------------------\n"@ + norm_lines(
        f.content,
    ) + seq!['\n']
}

/// The plain-text sections of all files, in order.
pub open spec fn txt_sections(files: Seq<FileEntryV>) -> Seq<char>
    decreases files.len(),
{
    if files.len() == 0 {
        Seq::empty()
    } else {
        txt_file_section(files[0]) + txt_sections(files.drop_first())
    }
}

/// The whole plain-text document.
pub open spec fn txt_doc(repo: RepositoryV, ts: Seq<char>) -> Seq<char> {
    "Jockey Image\n============\n\n"@ + "Generated: "@ + ts + "\n\n"@
        + "Repository Structure:\n\n"@ + repo.tree + seq!['\n'] + txt_sections(repo.files)
        + "\n\n---\n\n> "@ + footer_note() + seq!['\n']
}

/// The hexadecimal digit for a value below sixteen.
pub open spec fn hex_digit(n: int) -> char {
    seq!['0', '1', '2', '3', '4', '5', '6', '7', '8', '9', 'a', 'b', 'c', 'd', 'e', 'f'][n]
}

/// How one character is written inside a double-quoted JSON (or YAML)
/// string.
pub open spec fn json_escape_char(c: char) -> Seq<char> {
    if c == '"' {
        seq!['\\', '"']
    } else if c == '\\' {
        seq!['\\', '\\']
    } else if c == '\n' {
        seq!['\\', 'n']
    } else if c == '\r' {
        seq!['\\', 'r']
    } else if c == '\t' {
        seq!['\\', 't']
    } else if (c as u32) < 0x20 {
        seq!['\\', 'u', '0', '0', hex_digit((c as u32) as int / 16), hex_digit(
            (c as u32) as int % 16,
        )]
    } else {
        seq![c]
    }
}

/// A whole string escaped for a double-quoted scalar.
pub open spec fn json_escaped(s: Seq<char>) -> Seq<char>
    decreases s.len(),
{
    if s.len() == 0 {
        Seq::empty()
    } else {
        json_escape_char(s[0]) + json_escaped(s.drop_first())
    }
}

/// One file as a JSON object.
pub open spec fn json_file(f: FileEntryV) -> Seq<char> {
    "{\"path\":\""@ + json_escaped(f.path) + "\",\"content\":\""@ + json_escaped(f.content)
        + "\"}"@
}

/// The files as a JSON array body, comma-separated.
pub open spec fn json_files(files: Seq<FileEntryV>) -> Seq<char>
    decreases files.len(),
{
    if files.len() == 0 {
        Seq::empty()
    } else if files.len() == 1 {
        json_file(files[0])
    } else {
        json_file(files[0]) + seq![','] + json_files(files.drop_first())
    }
}

/// The whole JSON document.
pub open spec fn json_doc(repo: RepositoryV, ts: Seq<char>) -> Seq<char> {
    "{\"timestamp\":\""@ + json_escaped(ts) + "\",\"repository\":{\"tree\":\""@ + json_escaped(
        repo.tree,
    ) + "\",\"files\":["@ + json_files(repo.files) + "]},\"footer\":\""@ + json_escaped(
        footer_note(),
    ) + "\"}"@
}

/// One file as a YAML list item with quoted scalars.
pub open spec fn yaml_file(f: FileEntryV) -> Seq<char> {
    "    - path: \""@ + json_escaped(f.path) + "\"\n      content: \""@ + json_escaped(f.content)
        + "\"\n"@
}

/// The files as YAML list lines, in order.
pub open spec fn yaml_files(files: Seq<FileEntryV>) -> Seq<char>
    decreases files.len(),
{
    if files.len() == 0 {
        Seq::empty()
    } else {
        yaml_file(files[0]) + yaml_files(files.drop_first())
    }
}

/// The whole YAML document, with every scalar double-quoted and escaped.
pub open spec fn yaml_doc(repo: RepositoryV, ts: Seq<char>) -> Seq<char> {
    "timestamp: \""@ + json_escaped(ts) + "\"\nrepository:\n  tree: \""@ + json_escaped(repo.tree)
        + "\"\n  files:\n"@ + yaml_files(repo.files) + "footer: \""@ + json_escaped(footer_note())
        + "\"\n"@
}

/// The document for a repository, format and timestamp.
pub open spec fn doc_spec(repo: RepositoryV, format: OutputFormat, ts: Seq<char>) -> Seq<char> {
    match format {
        OutputFormat::Md => md_doc(repo, ts),
        OutputFormat::Txt => txt_doc(repo, ts),
        OutputFormat::Json => json_doc(repo, ts),
        OutputFormat::Yaml => yaml_doc(repo, ts),
    }
}

/// Line-normalizes a content: every line comes out terminated by one
/// newline, carriage returns before newlines dropped.
pub fn normalize_lines(s: &str) -> (r: String)
    ensures
        r@ == norm_lines(s@),
{
    let len = s.unicode_len();
    let mut out = String::new();
    let mut start: usize = 0;
    proof {
        assert(s@.skip(0) =~= s@);
    }
    while start < len
        invariant_except_break
            start <= len,
            len == s@.len(),
            out@ + norm_lines(s@.skip(start as int)) == norm_lines(s@),
        ensures
            out@ == norm_lines(s@),
        decreases len - start,
    {
        let mut j = start;
        while j < len
            invariant_except_break
                start <= j <= len,
                len == s@.len(),
                forall|k: int| start <= k < j ==> s@[k] != '\n',
            ensures
                start <= j <= len,
                forall|k: int| start <= k < j ==> s@[k] != '\n',
                j < len ==> s@[j as int] == '\n',
            decreases len - j,
        {
            if s.get_char(j) == '\n' {
                break ;
            }
            j += 1;
        }
        let has_nl = j < len;
        let line_end = if has_nl && j > start && s.get_char(j - 1) == '\r' {
            j - 1
        } else {
            j
        };
        let piece = s.substring_char(start, line_end);
        out.append(piece);
        out.push('\n');
        proof {
            let rem = s@.skip(start as int);
            assert(forall|k: int| 0 <= k < j - start ==> rem[k] == s@[start + k]);
            if has_nl {
                assert(rem[j - start] == '\n');
                lemma_first_index_at(rem, '\n', j - start);
                assert(rem.take(j - start) =~= s@.subrange(start as int, j as int));
                assert(strip_cr(rem.take(j - start)) =~= s@.subrange(
                    start as int,
                    line_end as int,
                ));
                assert(rem.skip(j - start + 1) =~= s@.skip(j + 1));
            } else {
                lemma_first_index_none(rem, '\n');
                assert(rem =~= s@.subrange(start as int, j as int));
                assert(norm_lines(rem) == rem + seq!['\n']);
            }
        }
        if !has_nl {
            proof {
                assert(out@ =~= norm_lines(s@));
            }
            break ;
        }
        start = j + 1;
    }
    out
}

/// The extension used as the markdown language hint.
pub fn extension_of(path: &str) -> (r: String)
    ensures
        r@ == ext_of(path@),
{
    let name = crate::paths::basename(path);
    match crate::text::find_last(name.as_str(), '.') {
        Option::Some(i) => {
            proof {
                lemma_last_index_at(name@, '.', i as int);
            }
            if i == 0 {
                proof {
                    assert(""@ =~= Seq::<char>::empty()) by {
                        reveal_strlit("");
                    }
                }
                str_to_string("")
            } else {
                let nlen = name.as_str().unicode_len();
                str_to_string(name.as_str().substring_char(i + 1, nlen))
            }
        },
        Option::None => {
            proof {
                lemma_last_index_none(name@, '.');
                assert(""@ =~= Seq::<char>::empty()) by {
                    reveal_strlit("");
                }
            }
            str_to_string("")
        },
    }
}

/// Escapes a string for a double-quoted JSON or YAML scalar.
pub fn escape_string(s: &str) -> (r: String)
    ensures
        r@ == json_escaped(s@),
{
    let len = s.unicode_len();
    let mut out = String::new();
    let mut i: usize = 0;
    proof {
        assert(s@.skip(0) =~= s@);
    }
    while i < len
        invariant
            i <= len,
            len == s@.len(),
            out@ + json_escaped(s@.skip(i as int)) == json_escaped(s@),
        decreases len - i,
    {
        let c = s.get_char(i);
        proof {
            assert(s@.skip(i as int)[0] == s@[i as int]);
            assert(s@.skip(i as int).drop_first() =~= s@.skip(i as int + 1));
        }
        if c == '"' {
            out.push('\\');
            out.push('"');
        } else if c == '\\' {
            out.push('\\');
            out.push('\\');
        } else if c == '\n' {
            out.push('\\');
            out.push('n');
        } else if c == '\r' {
            out.push('\\');
            out.push('r');
        } else if c == '\t' {
            out.push('\\');
            out.push('t');
        } else if (c as u32) < 0x20 {
            out.push('\\');
            out.push('u');
            out.push('0');
            out.push('0');
            out.push(hex_digit_char((c as u32) / 16));
            out.push(hex_digit_char((c as u32) % 16));
        } else {
            out.push(c);
        }
        proof {
            assert(out@ + json_escaped(s@.skip(i as int + 1)) =~= json_escaped(s@));
        }
        i += 1;
    }
    out
}

/// Renders the markdown document.
pub fn render_markdown(repo: &Repository, ts: &str) -> (r: String)
    ensures
        r@ == md_doc(repo@, ts@),
{
    let mut out = str_to_string("# Jockey Image\n\n");
    out.append("Generated: ");
    out.append(ts);
    out.append("\n\n");
    out.append("## Repository Structure\n\n");
    out.append("```\n");
    out.append(repo.tree.as_str());
    out.append("```\n\n");
    let ghost head = out@;
    let ghost fs = repo@.files;
    let n = repo.files.len();
    let mut i: usize = 0;
    proof {
        assert(fs.skip(0) =~= fs);
    }
    while i < n
        invariant
            i <= n,
            n == repo.files@.len(),
            fs == repo@.files,
            fs.len() == n,
            out@ + md_sections(fs.skip(i as int)) == head + md_sections(fs),
        decreases n - i,
    {
        let f = &repo.files[i];
        proof {
            assert(fs[i as int] == repo.files@[i as int].deep_view());
            assert(fs.skip(i as int)[0] == fs[i as int]);
            assert(fs.skip(i as int).drop_first() =~= fs.skip(i as int + 1));
        }
        out.append("## File: ");
        out.append(f.path.as_str());
        out.append("\n\n");
        let fence = fence_string(f.content.as_str());
        out.append(fence.as_str());
        let ext = extension_of(f.path.as_str());
        out.append(ext.as_str());
        out.push('\n');
        let body = normalize_lines(f.content.as_str());
        out.append(body.as_str());
        out.append(fence.as_str());
        out.append("\n\n");
        proof {
            assert(fence@ == fence_for(fs[i as int].content));
            assert(out@ + md_sections(fs.skip(i as int + 1)) =~= head + md_sections(fs));
        }
        i += 1;
    }
    out.append("\n\n---\n\n> ");
    out.append("Jockey image");
    out.push('\n');
    proof {
        assert(md_sections(fs.skip(n as int)) == Seq::<char>::empty());
        assert(out@ =~= md_doc(repo@, ts@));
    }
    out
}

/// Renders the plain-text document.
pub fn render_text(repo: &Repository, ts: &str) -> (r: String)
    ensures
        r@ == txt_doc(repo@, ts@),
{
    let mut out = str_to_string("Jockey Image\n============\n\n");
    out.append("Generated: ");
    out.append(ts);
    out.append("\n\n");
    out.append("Repository Structure:\n\n");
    out.append(repo.tree.as_str());
    out.push('\n');
    let ghost head = out@;
    let ghost fs = repo@.files;
    let n = repo.files.len();
    let mut i: usize = 0;
    proof {
        assert(fs.skip(0) =~= fs);
    }
    while i < n
        invariant
            i <= n,
            n == repo.files@.len(),
            fs == repo@.files,
            fs.len() == n,
            out@ + txt_sections(fs.skip(i as int)) == head + txt_sections(fs),
        decreases n - i,
    {
        let f = &repo.files[i];
        proof {
            assert(fs[i as int] == repo.files@[i as int].deep_view());
            assert(fs.skip(i as int)[0] == fs[i as int]);
            assert(fs.skip(i as int).drop_first() =~= fs.skip(i as int + 1));
        }
        out.append("File: ");
        out.append(f.path.as_str());
        out.push('\n');
        out.append("----------------------------------------\n");
        let body = normalize_lines(f.content.as_str());
        out.append(body.as_str());
        out.push('\n');
        proof {
            assert(out@ + txt_sections(fs.skip(i as int + 1)) =~= head + txt_sections(fs));
        }
        i += 1;
    }
    out.append("\n\n---\n\n> ");
    out.append("Jockey image");
    out.push('\n');
    proof {
        assert(txt_sections(fs.skip(n as int)) == Seq::<char>::empty());
        assert(out@ =~= txt_doc(repo@, ts@));
    }
    out
}

/// Renders the JSON document.
pub fn render_json(repo: &Repository, ts: &str) -> (r: String)
    ensures
        r@ == json_doc(repo@, ts@),
{
    let mut out = str_to_string("{\"timestamp\":\"");
    let e_ts = escape_string(ts);
    out.append(e_ts.as_str());
    out.append("\",\"repository\":{\"tree\":\"");
    let e_tree = escape_string(repo.tree.as_str());
    out.append(e_tree.as_str());
    out.append("\",\"files\":[");
    let ghost head = out@;
    let ghost fs = repo@.files;
    let n = repo.files.len();
    let mut i: usize = 0;
    proof {
        assert(fs.skip(0) =~= fs);
    }
    while i < n
        invariant
            i <= n,
            n == repo.files@.len(),
            fs == repo@.files,
            fs.len() == n,
            out@ + json_files(fs.skip(i as int)) == head + json_files(fs),
        decreases n - i,
    {
        let f = &repo.files[i];
        proof {
            assert(fs[i as int] == repo.files@[i as int].deep_view());
            assert(fs.skip(i as int)[0] == fs[i as int]);
            assert(fs.skip(i as int).drop_first() =~= fs.skip(i as int + 1));
        }
        out.append("{\"path\":\"");
        let e_path = escape_string(f.path.as_str());
        out.append(e_path.as_str());
        out.append("\",\"content\":\"");
        let e_content = escape_string(f.content.as_str());
        out.append(e_content.as_str());
        out.append("\"}");
        if i + 1 < n {
            out.push(',');
            proof {
                assert(fs.skip(i as int).len() > 1);
                assert(out@ + json_files(fs.skip(i as int + 1)) =~= head + json_files(fs));
            }
        } else {
            proof {
                assert(fs.skip(i as int).len() == 1);
                assert(json_files(fs.skip(i as int + 1)) == Seq::<char>::empty());
                assert(out@ + json_files(fs.skip(i as int + 1)) =~= head + json_files(fs));
            }
        }
        i += 1;
    }
    out.append("]},\"footer\":\"");
    let e_footer = escape_string("Jockey image");
    out.append(e_footer.as_str());
    out.append("\"}");
    proof {
        assert(json_files(fs.skip(n as int)) == Seq::<char>::empty());
        assert(out@ =~= json_doc(repo@, ts@));
    }
    out
}

/// Renders the YAML document.
pub fn render_yaml(repo: &Repository, ts: &str) -> (r: String)
    ensures
        r@ == yaml_doc(repo@, ts@),
{
    let mut out = str_to_string("timestamp: \"");
    let e_ts = escape_string(ts);
    out.append(e_ts.as_str());
    out.append("\"\nrepository:\n  tree: \"");
    let e_tree = escape_string(repo.tree.as_str());
    out.append(e_tree.as_str());
    out.append("\"\n  files:\n");
    let ghost head = out@;
    let ghost fs = repo@.files;
    let n = repo.files.len();
    let mut i: usize = 0;
    proof {
        assert(fs.skip(0) =~= fs);
    }
    while i < n
        invariant
            i <= n,
            n == repo.files@.len(),
            fs == repo@.files,
            fs.len() == n,
            out@ + yaml_files(fs.skip(i as int)) == head + yaml_files(fs),
        decreases n - i,
    {
        let f = &repo.files[i];
        proof {
            assert(fs[i as int] == repo.files@[i as int].deep_view());
            assert(fs.skip(i as int)[0] == fs[i as int]);
            assert(fs.skip(i as int).drop_first() =~= fs.skip(i as int + 1));
        }
        out.append("    - path: \"");
        let e_path = escape_string(f.path.as_str());
        out.append(e_path.as_str());
        out.append("\"\n      content: \"");
        let e_content = escape_string(f.content.as_str());
        out.append(e_content.as_str());
        out.append("\"\n");
        proof {
            assert(out@ + yaml_files(fs.skip(i as int + 1)) =~= head + yaml_files(fs));
        }
        i += 1;
    }
    out.append("footer: \"");
    let e_footer = escape_string("Jockey image");
    out.append(e_footer.as_str());
    out.append("\"\n");
    proof {
        assert(yaml_files(fs.skip(n as int)) == Seq::<char>::empty());
        assert(out@ =~= yaml_doc(repo@, ts@));
    }
    out
}

/// Renders the repository in the requested format with the given
/// timestamp.
pub fn render_document(repo: &Repository, format: OutputFormat, ts: &str) -> (r: String)
    ensures
        r@ == doc_spec(repo@, format, ts@),
{
    match format {
        OutputFormat::Md => render_markdown(repo, ts),
        OutputFormat::Txt => render_text(repo, ts),
        OutputFormat::Json => render_json(repo, ts),
        OutputFormat::Yaml => render_yaml(repo, ts),
    }
}

/// Serializes the repository in the requested format, stamped with the
/// current local time. Only the timestamp depends on the clock; for
/// every timestamp the document is exactly `doc_spec`. Serialization
/// itself cannot fail.
pub fn format_output(repo: Repository, format: OutputFormat) -> (r: Result<String, JockeyError>)
    ensures
        r is Ok,
        r matches Ok(o) ==> exists|ts: Seq<char>| o@ == doc_spec(repo@, format, ts),
{
    let ts = crate::time::timestamp_now();
    let doc = render_document(&repo, format, ts.as_str());
    proof {
        assert(exists|t: Seq<char>| doc@ == doc_spec(repo@, format, t)) by {
            assert(doc@ == doc_spec(repo@, format, ts@));
        }
    }
    Ok(doc)
}

/// The hexadecimal digit character for a value below sixteen.
fn hex_digit_char(n: u32) -> (r: char)
    requires
        n < 16,
    ensures
        r == hex_digit(n as int),
{
    if n == 0 {
        '0'
    } else if n == 1 {
        '1'
    } else if n == 2 {
        '2'
    } else if n == 3 {
        '3'
    } else if n == 4 {
        '4'
    } else if n == 5 {
        '5'
    } else if n == 6 {
        '6'
    } else if n == 7 {
        '7'
    } else if n == 8 {
        '8'
    } else if n == 9 {
        '9'
    } else if n == 10 {
        'a'
    } else if n == 11 {
        'b'
    } else if n == 12 {
        'c'
    } else if n == 13 {
        'd'
    } else if n == 14 {
        'e'
    } else {
        'f'
    }
}

} // verus!
