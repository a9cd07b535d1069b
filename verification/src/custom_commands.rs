//! User-defined markdown command templates with `$UPPER_CASE` arguments.

use vstd::prelude::*;
use crate::str_map::StrMap;
use crate::context_gen_telemetry::{is_md_file, is_md_path};
use crate::text::{
    lex_lt, replace, replace_exec, str_lt, sub_vec, chars_of, ends_with, join, join_strings, occurs_at_exec, push_char, starts_with,
    string_of_range, strip_cr, trim, trim_range, trim_start, pad_right, repeat_char, push_padded, push_repeat,
};

verus! {

/// Where a command was found.
#[derive(Debug, Clone, Copy, PartialEq, Eq, Hash, Structural)]
pub enum CommandPrefix {
    User,
    Project,
}

/// The prefix's label.
pub open spec fn prefix_label(p: CommandPrefix) -> Seq<char> {
    match p {
        CommandPrefix::User => "user"@,
        CommandPrefix::Project => "project"@,
    }
}

impl CommandPrefix {
    /// The prefix's label.
    pub fn as_str(&self) -> (res: &'static str)
        ensures
            res@ == prefix_label(*self),
    {
        match self {
            CommandPrefix::User => "user",
            CommandPrefix::Project => "project",
        }
    }

    /// The prefix's label as an owned string.
    pub fn to_string(&self) -> (res: String)
        ensures
            res@ == prefix_label(*self),
    {
        String::from_str(self.as_str())
    }
}

/// A command read from a markdown file.
#[derive(Debug, Clone)]
pub struct CustomCommand {
    pub name: String,
    pub prefix: CommandPrefix,
    pub description: String,
    pub template: String,
    pub arguments: Vec<String>,
    /// Path of the markdown file.
    pub source_path: String,
}

/// Outcome of a non-interactive prompt.
#[derive(Debug, Clone)]
pub struct PromptResult {
    pub prompt: String,
    pub response: String,
    pub model: String,
    pub tokens_used: u64,
    pub duration_ms: u64,
}

/// ASCII upper-case letter.
pub open spec fn is_upper_byte(b: u8) -> bool {
    65 <= b <= 90
}

/// ASCII lower-case letter.
pub open spec fn is_lower_byte(b: u8) -> bool {
    97 <= b <= 122
}

/// Byte allowed inside an argument name: upper-case letter, digit or `_`.
pub open spec fn is_arg_byte(b: u8) -> bool {
    is_upper_byte(b) || (48 <= b <= 57) || b == 95
}

/// First index at or after `j` that does not hold an argument byte.
pub open spec fn arg_end(t: Seq<u8>, j: int) -> int
    decreases t.len() - j,
{
    if 0 <= j < t.len() && is_arg_byte(t[j]) {
        arg_end(t, j + 1)
    } else {
        j
    }
}

/// `arg_end` never moves backwards nor past the end.
pub proof fn lemma_arg_end(t: Seq<u8>, j: int)
    requires
        0 <= j <= t.len(),
    ensures
        j <= arg_end(t, j) <= t.len(),
        forall|k: int| j <= k < arg_end(t, j) ==> is_arg_byte(t[k]),
        arg_end(t, j) < t.len() ==> !is_arg_byte(t[arg_end(t, j)]),
    decreases t.len() - j,
{
    if j < t.len() && is_arg_byte(t[j]) {
        lemma_arg_end(t, j + 1);
    }
}

/// Bytes read as characters, one character per byte.
pub open spec fn bytes_as_chars(b: Seq<u8>) -> Seq<char> {
    b.map_values(|x: u8| x as char)
}

/// A `$` followed by an upper-case letter starts an argument reference at `i`.
pub open spec fn starts_reference(t: Seq<u8>, i: int) -> bool {
    0 <= i && t[i] == 36 && i + 1 < t.len() && is_upper_byte(t[i + 1])
}

/// The reference at `i` runs straight into a lower-case letter, so it is no reference.
pub open spec fn reference_rejected(t: Seq<u8>, i: int) -> bool {
    let e = arg_end(t, i + 2);
    e < t.len() && is_lower_byte(t[e])
}

/// Every argument reference from index `i` on, in order, repeats included.
pub open spec fn scan_references(t: Seq<u8>, i: int) -> Seq<Seq<char>>
    decreases t.len() - i,
{
    if i < 0 || i >= t.len() {
        seq![]
    } else if starts_reference(t, i) {
        let e = arg_end(t, i + 2);
        proof {
            lemma_arg_end(t, i + 2);
        }
        if reference_rejected(t, i) {
            scan_references(t, e)
        } else {
            seq![bytes_as_chars(t.subrange(i + 1, e))] + scan_references(t, e)
        }
    } else {
        scan_references(t, i + 1)
    }
}

/// `s` without repeats, keeping first occurrences in order.
pub open spec fn dedup(s: Seq<Seq<char>>) -> Seq<Seq<char>>
    decreases s.len(),
{
    if s.len() == 0 {
        seq![]
    } else {
        let d = dedup(s.drop_last());
        if d.contains(s.last()) {
            d
        } else {
            d.push(s.last())
        }
    }
}

/// The argument names of a template, each once, in order of first use.
pub open spec fn spec_extract_arguments(t: Seq<u8>) -> Seq<Seq<char>> {
    dedup(scan_references(t, 0))
}

fn is_upper(b: u8) -> (res: bool)
    ensures
        res == is_upper_byte(b),
{
    65 <= b && b <= 90
}

fn is_arg_char(b: u8) -> (res: bool)
    ensures
        res == is_arg_byte(b),
{
    (65 <= b && b <= 90) || (48 <= b && b <= 57) || b == 95
}

/// End of the argument name that starts at `start`.
fn scan_arg_end(t: &[u8], start: usize) -> (res: usize)
    requires
        start <= t@.len(),
    ensures
        res == arg_end(t@, start as int),
        start <= res <= t@.len(),
{
    proof {
        lemma_arg_end(t@, start as int);
    }
    let mut end = start;
    while end < t.len() && is_arg_char(t[end])
        invariant
            start <= end <= t@.len(),
            arg_end(t@, start as int) == arg_end(t@, end as int),
        decreases t@.len() - end,
    {
        end = end + 1;
    }
    end
}

/// The characters of `t[lo..hi]`, one per byte.
fn string_of_bytes(t: &[u8], lo: usize, hi: usize) -> (res: String)
    requires
        lo <= hi <= t@.len(),
    ensures
        res@ == bytes_as_chars(t@.subrange(lo as int, hi as int)),
{
    let mut out = String::new();
    let mut i = lo;
    while i < hi
        invariant
            lo <= i <= hi <= t@.len(),
            out@ == bytes_as_chars(t@.subrange(lo as int, i as int)),
        decreases hi - i,
    {
        push_char(&mut out, t[i] as char);
        assert(bytes_as_chars(t@.subrange(lo as int, i + 1)) =~= bytes_as_chars(
            t@.subrange(lo as int, i as int),
        ).push(t@[i as int] as char));
        i = i + 1;
    }
    out
}

/// Whether `v` holds a string equal to `s`.
pub(crate) fn contains_string(v: &Vec<String>, s: &String) -> (res: bool)
    ensures
        res == v.deep_view().contains(s@),
{
    let mut i: usize = 0;
    while i < v.len()
        invariant
            i <= v@.len(),
            forall|j: int| 0 <= j < i ==> v.deep_view()[j] != s@,
        decreases v@.len() - i,
    {
        if crate::text::str_eq(v[i].as_str(), s.as_str()) {
            assert(v.deep_view()[i as int] == s@);
            return true;
        }
        i = i + 1;
    }
    false
}

/// The argument names used by a template (`$NAME`: an upper-case letter, then
/// upper-case letters, digits or `_`, not followed by a lower-case letter),
/// each once, in order of first use.
pub fn extract_arguments(template: &str) -> (res: Vec<String>)
    ensures
        res.deep_view() == spec_extract_arguments(vstd::utf8::encode_utf8(template@)),
{
    let bytes = template.as_bytes();
    let ghost t = bytes@;
    let mut i: usize = 0;
    let mut out: Vec<String> = Vec::new();
    let ghost mut found: Seq<Seq<char>> = seq![];
    assert(out.deep_view() =~= dedup(found));
    while i < bytes.len()
        invariant
            t == bytes@,
            i <= t.len(),
            scan_references(t, 0) == found + scan_references(t, i as int),
            out.deep_view() == dedup(found),
        decreases t.len() - i,
    {
        if bytes[i] == 36u8 && i + 1 < bytes.len() && is_upper(bytes[i + 1]) {
            let start = i + 1;
            let end = scan_arg_end(bytes, start + 1);
            if end < bytes.len() && 97u8 <= bytes[end] && bytes[end] <= 122u8 {
                i = end;
                continue;
            }
            let name = string_of_bytes(bytes, start, end);
            proof {
                assert(scan_references(t, 0) == found.push(name@) + scan_references(t, end as int));
                assert(found.push(name@).drop_last() =~= found);
            }
            let ghost before = out.deep_view();
            if !contains_string(&out, &name) {
                out.push(name);
                assert(out.deep_view() =~= before.push(name@));
            }
            proof {
                found = found.push(name@);
            }
            i = end;
            continue;
        }
        i = i + 1;
    }
    assert(found + scan_references(t, i as int) =~= found);
    out
}

/// ASCII upper-case letter.
pub open spec fn is_upper_ch(c: char) -> bool {
    65 <= (c as u32) <= 90
}

/// Character allowed inside an argument name: upper-case letter, digit or `_`.
pub open spec fn is_arg_ch(c: char) -> bool {
    is_upper_ch(c) || (48 <= (c as u32) <= 57) || c == '_'
}

/// First index at or after `j` that does not hold an argument character.
pub open spec fn arg_end_ch(t: Seq<char>, j: int) -> int
    decreases t.len() - j,
{
    if 0 <= j < t.len() && is_arg_ch(t[j]) {
        arg_end_ch(t, j + 1)
    } else {
        j
    }
}

/// `arg_end_ch` never moves backwards nor past the end.
pub proof fn lemma_arg_end_ch(t: Seq<char>, j: int)
    requires
        0 <= j <= t.len(),
    ensures
        j <= arg_end_ch(t, j) <= t.len(),
    decreases t.len() - j,
{
    if j < t.len() && is_arg_ch(t[j]) {
        lemma_arg_end_ch(t, j + 1);
    }
}

/// A `$` followed by an upper-case letter at `i`, whose name does not run
/// straight into a lower-case letter: an argument reference.
pub open spec fn reference_at(t: Seq<char>, i: int) -> bool {
    &&& 0 <= i && i + 1 < t.len() && t[i] == '$' && is_upper_ch(t[i + 1])
    &&& !(arg_end_ch(t, i + 2) < t.len() && 97 <= (t[arg_end_ch(t, i + 2)] as u32) <= 122)
}

/// Text of a template after substituting every argument reference that has
/// a value; every other character is copied as it is.
pub open spec fn spec_render(t: Seq<char>, args: Map<Seq<char>, Seq<char>>, i: int) -> Seq<char>
    decreases t.len() - i,
{
    if i < 0 || i >= t.len() {
        seq![]
    } else if reference_at(t, i) && args.contains_key(t.subrange(i + 1, arg_end_ch(t, i + 2))) {
        let e = arg_end_ch(t, i + 2);
        proof {
            lemma_arg_end_ch(t, i + 2);
        }
        args[t.subrange(i + 1, e)] + spec_render(t, args, e)
    } else {
        seq![t[i]] + spec_render(t, args, i + 1)
    }
}

/// A template without `$` renders to itself, whatever the arguments: only
/// argument references are ever replaced.
pub proof fn lemma_render_plain_text(t: Seq<char>, args: Map<Seq<char>, Seq<char>>, i: int)
    requires
        0 <= i <= t.len(),
        forall|j: int| 0 <= j < t.len() ==> #[trigger] t[j] != '$',
    ensures
        spec_render(t, args, i) == t.skip(i),
    decreases t.len() - i,
{
    if i < t.len() {
        lemma_render_plain_text(t, args, i + 1);
        assert(t.skip(i) =~= seq![t[i]] + t.skip(i + 1));
    } else {
        assert(t.skip(i) =~= Seq::<char>::empty());
    }
}

/// A character of an argument's name: `A`-`Z` (codes 65 to 90), `0`-`9`
/// (codes 48 to 57) or `_`.
pub open spec fn name_char(c: char) -> bool {
    (65 <= (c as u32) && (c as u32) <= 90) || (48 <= (c as u32) && (c as u32) <= 57) || c == '_'
}

proof fn lemma_name_run_end(t: Seq<char>, j: int, e: int)
    requires
        0 <= j <= e <= t.len(),
        forall|k: int| j <= k < e ==> name_char(#[trigger] t[k]),
        e < t.len() ==> !name_char(t[e]),
    ensures
        arg_end_ch(t, j) == e,
    decreases e - j,
{
    if j < e {
        assert(name_char(t[j]));
        lemma_name_run_end(t, j + 1, e);
    }
}

/// An argument reference is replaced as a whole: a `$`, an upper-case
/// letter and the run of upper-case letters, digits and `_` after it (not
/// running into a lower-case letter) render as the value of the argument
/// named by that whole run, where that argument is given.
pub proof fn lemma_reference_replaced_whole(t: Seq<char>, args: Map<Seq<char>, Seq<char>>, i: int, e: int)
    requires
        0 <= i,
        i + 1 < e <= t.len(),
        t[i] == '$',
        65 <= (t[i + 1] as u32) && (t[i + 1] as u32) <= 90,
        forall|k: int| i + 1 <= k < e ==> name_char(#[trigger] t[k]),
        e < t.len() ==> !name_char(t[e]) && !(97 <= (t[e] as u32) && (t[e] as u32) <= 122),
        args.contains_key(t.subrange(i + 1, e)),
    ensures
        spec_render(t, args, i) == args[t.subrange(i + 1, e)] + spec_render(t, args, e),
{
    lemma_name_run_end(t, i + 2, e);
    assert(is_upper_ch(t[i + 1]));
    assert(reference_at(t, i));
}

fn is_upper_c(c: char) -> (res: bool)
    ensures
        res == is_upper_ch(c),
{
    let n = c as u32;
    65 <= n && n <= 90
}

/// End of the argument name that starts at `start`.
fn scan_arg_end_ch(t: &Vec<char>, start: usize) -> (res: usize)
    requires
        start <= t@.len(),
    ensures
        res == arg_end_ch(t@, start as int),
        start <= res <= t@.len(),
{
    proof {
        lemma_arg_end_ch(t@, start as int);
    }
    let mut end = start;
    while end < t.len() && (is_upper_c(t[end]) || (48 <= (t[end] as u32) && (t[end] as u32) <= 57) || t[end] == '_')
        invariant
            start <= end <= t@.len(),
            arg_end_ch(t@, start as int) == arg_end_ch(t@, end as int),
        decreases t@.len() - end,
    {
        end = end + 1;
    }
    end
}

/// Index of the first declared argument without a value, if any.
pub open spec fn first_missing(names: Seq<Seq<char>>, args: Map<Seq<char>, Seq<char>>) -> Option<int> {
    if exists|i: int| 0 <= i < names.len() && !args.contains_key(#[trigger] names[i]) {
        Some(
            choose|i: int|
                0 <= i < names.len() && !args.contains_key(#[trigger] names[i]) && forall|j: int|
                    0 <= j < i ==> args.contains_key(#[trigger] names[j]),
        )
    } else {
        None
    }
}

/// Renders a command template: fails on the first declared argument that has
/// no value, otherwise replaces each reference that has a value.
pub fn render_command(command: &CustomCommand, args: &StrMap) -> (res: Result<String, String>)
    ensures
        match res {
            Ok(s) => (forall|i: int|
                0 <= i < command.arguments@.len() ==> args@.contains_key(
                    #[trigger] command.arguments.deep_view()[i],
                )) && s@ == spec_render(command.template@, args@, 0),
            Err(e) => exists|i: int|
                0 <= i < command.arguments@.len() && !args@.contains_key(
                    #[trigger] command.arguments.deep_view()[i],
                ) && (forall|j: int|
                    0 <= j < i ==> args@.contains_key(
                        #[trigger] command.arguments.deep_view()[j],
                    )) && e@ == "Missing required argument: "@ + command.arguments.deep_view()[i],
        },
        command.arguments@.len() == 0 && (forall|j: int| 0 <= j < command.template@.len() ==> #[trigger] command.template@[j] != '$')
            ==> (res matches Ok(s) && s@ == command.template@),
{
    let mut k: usize = 0;
    while k < command.arguments.len()
        invariant
            k <= command.arguments@.len(),
            forall|j: int|
                0 <= j < k ==> args@.contains_key(#[trigger] command.arguments.deep_view()[j]),
        decreases command.arguments@.len() - k,
    {
        let required = &command.arguments[k];
        assert(command.arguments.deep_view()[k as int] == required@);
        if !args.contains_key(required.as_str()) {
            let mut msg = String::from_str("Missing required argument: ");
            msg.append(required.as_str());
            return Err(msg);
        }
        k = k + 1;
    }
    let template = chars_of(command.template.as_str());
    let ghost t = template@;
    let mut out = String::new();
    let mut i: usize = 0;
    while i < template.len()
        invariant
            t == template@,
            i <= t.len(),
            spec_render(t, args@, 0) == out@ + spec_render(t, args@, i as int),
        decreases t.len() - i,
    {
        if template[i] == '$' && i + 1 < template.len() && is_upper_c(template[i + 1]) {
            let start = i + 1;
            let end = scan_arg_end_ch(&template, start + 1);
            let rejected = end < template.len() && 97 <= (template[end] as u32) && (template[end] as u32) <= 122;
            if !rejected {
                let name = string_of_range(&template, start, end);
                match args.get(name.as_str()) {
                    Some(value) => {
                        out.append(value.as_str());
                        i = end;
                        continue;
                    },
                    None => {},
                }
            }
        }
        push_char(&mut out, template[i]);
        i = i + 1;
    }
    proof {
        if command.arguments@.len() == 0 && (forall|j: int| 0 <= j < command.template@.len() ==> #[trigger] command.template@[j] != '$') {
            lemma_render_plain_text(t, args@, 0);
            assert(t.skip(0) =~= t);
        }
    }
    Ok(out)
}

/// The name of the command in the markdown file at `rel` (relative to its
/// commands directory): the directories and the file stem, joined by `:`.
pub open spec fn command_name_of(rel: Seq<char>) -> Seq<char> {
    replace(rel.take(rel.len() - 3), "/"@, ":"@)
}

/// Whether `c` is the command read from the markdown file at `rel` with
/// `content`, found at `source`: its name, prefix, description (the name
/// when the file gives none), template and arguments.
pub open spec fn command_read(c: CustomCommand, rel: Seq<char>, content: Seq<char>, source: Seq<char>, prefix: CommandPrefix) -> bool {
    let (desc, template) = spec_parse_description(content);
    &&& c.name@ == command_name_of(rel)
    &&& c.prefix == prefix
    &&& c.description@ == (if desc.len() == 0 { command_name_of(rel) } else { desc })
    &&& c.template@ == template
    &&& c.arguments.deep_view() == spec_extract_arguments(vstd::utf8::encode_utf8(template))
    &&& c.source_path@ == source
}

/// Where `x` goes among `t` from index `i` on: before the first command
/// whose name is greater than its own.
pub open spec fn name_insert_pos(t: Seq<CustomCommand>, x: CustomCommand, i: int) -> int
    decreases t.len() - i,
{
    if i >= t.len() || i < 0 {
        t.len() as int
    } else if lex_lt(x.name@, t[i].name@) {
        i
    } else {
        name_insert_pos(t, x, i + 1)
    }
}

/// `s` ordered by name; commands with equal names keep their order.
pub open spec fn sort_by_name(s: Seq<CustomCommand>) -> Seq<CustomCommand>
    decreases s.len(),
{
    if s.len() == 0 {
        s
    } else {
        let t = sort_by_name(s.drop_last());
        t.insert(name_insert_pos(t, s.last(), 0), s.last())
    }
}

/// The markdown files among the files found.
pub open spec fn md_entries(files: Seq<(String, String, String)>) -> Seq<(String, String, String)> {
    files.filter(|f: (String, String, String)| is_md_path(f.0@))
}

proof fn lemma_sort_by_name_len(s: Seq<CustomCommand>)
    ensures
        sort_by_name(s).len() == s.len(),
    decreases s.len(),
{
    if s.len() > 0 {
        lemma_sort_by_name_len(s.drop_last());
        lemma_name_insert_pos_range(sort_by_name(s.drop_last()), s.last(), 0);
    }
}

proof fn lemma_name_insert_pos_range(t: Seq<CustomCommand>, x: CustomCommand, i: int)
    requires
        0 <= i <= t.len(),
    ensures
        i <= name_insert_pos(t, x, i) <= t.len(),
    decreases t.len() - i,
{
    if i < t.len() && !lex_lt(x.name@, t[i].name@) {
        lemma_name_insert_pos_range(t, x, i + 1);
    }
}

/// Reads the command in one markdown file: `rel` is its path relative to
/// the commands directory, `content` its text and `source` its full path.
pub fn command_from_file(rel: &str, content: &str, source: &str, prefix: CommandPrefix) -> (res: CustomCommand)
    requires
        rel@.len() >= 3,
    ensures
        command_read(res, rel@, content@, source@, prefix),
{
    let v = chars_of(rel);
    let stem = sub_vec(&v, 0, v.len() - 3);
    let slash = chars_of("/");
    proof {
        reveal_strlit("/");
    }
    let name = replace_exec(&stem, &slash, ":");
    let (desc, template) = parse_command_description(content);
    let description = if desc.as_str().is_empty() { String::from_str(name.as_str()) } else { desc };
    let arguments = extract_arguments(template.as_str());
    CustomCommand { name, prefix, description, template, arguments, source_path: String::from_str(source) }
}

/// The commands of a directory, from every file found in it: each entry
/// holds the path relative to the directory, the file's text and its full
/// path. Markdown files become commands; the commands come ordered by
/// name, those with equal names in the order found.
pub fn discover_commands_from_dir(files: &Vec<(String, String, String)>, prefix: CommandPrefix) -> (res: Vec<CustomCommand>)
    ensures
        exists|read: Seq<CustomCommand>| #![auto]
            read.len() == md_entries(files@).len()
            && (forall|i: int| 0 <= i < read.len() ==> command_read(read[i], md_entries(files@)[i].0@, md_entries(files@)[i].1@, md_entries(files@)[i].2@, prefix))
            && res@ == sort_by_name(read),
{
    let ghost pred = |f: (String, String, String)| is_md_path(f.0@);
    let ghost mut read: Seq<CustomCommand> = Seq::empty();
    let mut sorted: Vec<CustomCommand> = Vec::new();
    let mut i: usize = 0;
    while i < files.len()
        invariant
            i <= files@.len(),
            pred == (|f: (String, String, String)| is_md_path(f.0@)),
            read.len() == files@.take(i as int).filter(pred).len(),
            forall|k: int| 0 <= k < read.len() ==> #[trigger] command_read(read[k], files@.take(i as int).filter(pred)[k].0@, files@.take(i as int).filter(pred)[k].1@, files@.take(i as int).filter(pred)[k].2@, prefix),
            sorted@ == sort_by_name(read),
        decreases files@.len() - i,
    {
        let ghost pre = files@.take(i as int);
        assert(files@.take(i + 1).drop_last() =~= pre);
        assert(files@.take(i + 1).last() == files@[i as int]);
        proof {
            reveal(Seq::filter);
        }
        let entry = &files[i];
        if is_md_file(entry.0.as_str()) {
            let c = command_from_file(entry.0.as_str(), entry.1.as_str(), entry.2.as_str(), prefix);
            let ghost r0 = read;
            proof {
                lemma_sort_by_name_len(r0);
                lemma_name_insert_pos_range(sorted@, c, 0);
            }
            let mut k: usize = 0;
            while k < sorted.len() && !str_lt(c.name.as_str(), sorted[k].name.as_str())
                invariant
                    k <= sorted@.len(),
                    name_insert_pos(sorted@, c, k as int) == name_insert_pos(sorted@, c, 0),
                decreases sorted@.len() - k,
            {
                k = k + 1;
            }
            assert(name_insert_pos(sorted@, c, k as int) == k);
            proof {
                read = read.push(c);
                assert(read.drop_last() =~= r0);
            }
            sorted.insert(k, c);
            assert(files@.take(i + 1).filter(pred) =~= pre.filter(pred).push(files@[i as int]));
        } else {
            assert(files@.take(i + 1).filter(pred) =~= pre.filter(pred));
        }
        i = i + 1;
    }
    assert(files@.take(files@.len() as int) =~= files@);
    assert(md_entries(files@) == files@.filter(pred));
    sorted
}

/// Byte length of the UTF-8 encoding of `s`.
pub open spec fn byte_len(s: Seq<char>) -> nat {
    vstd::utf8::encode_utf8(s).len()
}

/// Full name of a command: prefix, colon, name.
pub open spec fn full_name(c: CustomCommand) -> Seq<char> {
    prefix_label(c.prefix) + ":"@ + c.name@
}

/// Argument column of a command.
pub open spec fn args_cell(c: CustomCommand) -> Seq<char> {
    if c.arguments@.len() == 0 {
        "-"@
    } else {
        join(c.arguments.deep_view(), ","@)
    }
}

/// Largest of `floor` and the byte lengths of `f` over `cs`.
pub open spec fn max_width(cs: Seq<CustomCommand>, names: bool, floor: nat) -> nat
    decreases cs.len(),
{
    if cs.len() == 0 {
        floor
    } else {
        let rest = max_width(cs.drop_last(), names, floor);
        let w = if names {
            byte_len(full_name(cs.last()))
        } else {
            byte_len(args_cell(cs.last()))
        };
        if w > rest {
            w
        } else {
            rest
        }
    }
}

/// One table row.
pub open spec fn table_row(c: CustomCommand, nw: nat, aw: nat) -> Seq<char> {
    pad_right(full_name(c), nw) + "  "@ + pad_right(args_cell(c), aw) + "  "@ + c.description@
        + "\n"@
}

/// All table rows from `cs`.
pub open spec fn table_rows(cs: Seq<CustomCommand>, nw: nat, aw: nat) -> Seq<char>
    decreases cs.len(),
{
    if cs.len() == 0 {
        seq![]
    } else {
        table_rows(cs.drop_last(), nw, aw) + table_row(cs.last(), nw, aw)
    }
}

/// The command table: a header, a rule and one row per command.
pub open spec fn spec_commands_table(cs: Seq<CustomCommand>) -> Seq<char> {
    if cs.len() == 0 {
        "No custom commands found."@
    } else {
        let nw = max_width(cs, true, 7);
        let aw = max_width(cs, false, 4);
        pad_right("COMMAND"@, nw) + "  "@ + pad_right("ARGS"@, aw) + "  DESCRIPTION\n"@
            + repeat_char('-', nw) + "  "@ + repeat_char('-', aw) + "  "@ + repeat_char('-', 11)
            + "\n"@ + table_rows(cs, nw, aw)
    }
}

fn command_full_name(c: &CustomCommand) -> (res: String)
    ensures
        res@ == full_name(*c),
{
    let mut s = String::from_str(c.prefix.as_str());
    s.append(":");
    s.append(c.name.as_str());
    s
}

fn command_args_cell(c: &CustomCommand) -> (res: String)
    ensures
        res@ == args_cell(*c),
{
    if c.arguments.len() == 0 {
        String::from_str("-")
    } else {
        join_strings(&c.arguments, ",")
    }
}

/// Formats commands as an aligned table.
pub fn display_commands_table(commands: &Vec<CustomCommand>) -> (res: String)
    ensures
        res@ == spec_commands_table(commands@),
{
    if commands.len() == 0 {
        return String::from_str("No custom commands found.");
    }
    let mut names: Vec<String> = Vec::new();
    let mut argcells: Vec<String> = Vec::new();
    let mut nw: usize = 7;
    let mut aw: usize = 4;
    let mut i: usize = 0;
    while i < commands.len()
        invariant
            i <= commands@.len(),
            names@.len() == i,
            argcells@.len() == i,
            forall|j: int| 0 <= j < i ==> #[trigger] names@[j]@ == full_name(commands@[j]),
            forall|j: int| 0 <= j < i ==> #[trigger] argcells@[j]@ == args_cell(commands@[j]),
            nw == max_width(commands@.take(i as int), true, 7),
            aw == max_width(commands@.take(i as int), false, 4),
        decreases commands@.len() - i,
    {
        let n = command_full_name(&commands[i]);
        let a = command_args_cell(&commands[i]);
        assert(commands@.take(i + 1).drop_last() =~= commands@.take(i as int));
        let nl = n.as_str().as_bytes().len();
        let al = a.as_str().as_bytes().len();
        if nl > nw {
            nw = nl;
        }
        if al > aw {
            aw = al;
        }
        names.push(n);
        argcells.push(a);
        i = i + 1;
    }
    assert(commands@.take(i as int) =~= commands@);
    let mut out = String::new();
    push_padded(&mut out, "COMMAND", nw);
    out.append("  ");
    push_padded(&mut out, "ARGS", aw);
    out.append("  DESCRIPTION\n");
    push_repeat(&mut out, '-', nw);
    out.append("  ");
    push_repeat(&mut out, '-', aw);
    out.append("  ");
    push_repeat(&mut out, '-', 11);
    out.append("\n");
    let ghost head = out@;
    let mut k: usize = 0;
    while k < commands.len()
        invariant
            k <= commands@.len(),
            names@.len() == commands@.len(),
            argcells@.len() == commands@.len(),
            forall|j: int| 0 <= j < commands@.len() ==> #[trigger] names@[j]@ == full_name(commands@[j]),
            forall|j: int| 0 <= j < commands@.len() ==> #[trigger] argcells@[j]@ == args_cell(commands@[j]),
            out@ == head + table_rows(commands@.take(k as int), nw as nat, aw as nat),
        decreases commands@.len() - k,
    {
        assert(commands@.take(k + 1).drop_last() =~= commands@.take(k as int));
        let ghost before = out@;
        push_padded(&mut out, names[k].as_str(), nw);
        out.append("  ");
        push_padded(&mut out, argcells[k].as_str(), aw);
        out.append("  ");
        out.append(commands[k].description.as_str());
        out.append("\n");
        assert(out@ =~= before + table_row(commands@[k as int], nw as nat, aw as nat));
        k = k + 1;
    }
    assert(commands@.take(k as int) =~= commands@);
    out
}


/// Index of the first `\n` in `s`, or its length when there is none.
pub open spec fn nl_index(s: Seq<char>) -> int
    decreases s.len(),
{
    if s.len() == 0 || s[0] == '\n' {
        0
    } else {
        1 + nl_index(s.drop_first())
    }
}

/// Characterises [`nl_index`] by the first newline.
pub proof fn lemma_nl_index(s: Seq<char>, i: int)
    requires
        0 <= i <= s.len(),
        forall|j: int| 0 <= j < i ==> s[j] != '\n',
        i == s.len() || s[i] == '\n',
    ensures
        nl_index(s) == i,
    decreases i,
{
    if i > 0 {
        lemma_nl_index(s.drop_first(), i - 1);
    }
}

/// The first line of `s` (see `str::lines`), if `s` is not empty.
pub open spec fn first_line(s: Seq<char>) -> Option<Seq<char>> {
    if s.len() == 0 {
        None
    } else if nl_index(s) < s.len() {
        Some(strip_cr(s.take(nl_index(s))))
    } else {
        Some(s)
    }
}

/// What follows the first `\n` of `s`; empty when there is none.
pub open spec fn after_first_nl(s: Seq<char>) -> Seq<char> {
    if nl_index(s) < s.len() {
        s.skip(nl_index(s) + 1)
    } else {
        seq![]
    }
}

/// Description and body of a command file: a first line `# title` or
/// `<!-- description: text -->` gives the description and the rest is the body;
/// otherwise the description is empty and the body is the whole text.
pub open spec fn spec_parse_description(content: Seq<char>) -> (Seq<char>, Seq<char>) {
    match first_line(content) {
        None => (seq![], seq![]),
        Some(line) => if starts_with(line, "# "@) {
            (trim(line.skip(2)), after_first_nl(content))
        } else {
            let t = trim(line);
            let r1 = trim_start(t.skip(4));
            let r2 = trim_start(r1.skip(12));
            if starts_with(t, "<!--"@) && starts_with(r1, "description:"@) && ends_with(r2, "-->"@) {
                (trim(r2.take(r2.len() - 3)), after_first_nl(content))
            } else {
                (seq![], content)
            }
        },
    }
}

fn lit(s: &str) -> (res: Vec<char>)
    ensures
        res@ == s@,
{
    chars_of(s)
}

/// Splits a command file into its description and template body.
#[verifier::spinoff_prover]
#[verifier::rlimit(60)]
pub fn parse_command_description(content: &str) -> (res: (String, String))
    ensures
        (res.0@, res.1@) == spec_parse_description(content@),
{
    let v = chars_of(content);
    let ghost s = v@;
    proof {
        reveal_strlit("# ");
        reveal_strlit("<!--");
        reveal_strlit("description:");
        reveal_strlit("-->");
    }
    if v.len() == 0 {
        return (String::new(), String::new());
    }
    let mut n: usize = 0;
    while n < v.len() && v[n] != '\n'
        invariant
            n <= s.len(),
            s == v@,
            forall|j: int| 0 <= j < n ==> s[j] != '\n',
        decreases s.len() - n,
    {
        n = n + 1;
    }
    proof {
        lemma_nl_index(s, n as int);
    }
    let mut line_end = n;
    if n < v.len() && n > 0 && v[n - 1] == '\r' {
        line_end = n - 1;
    }
    let ghost line = first_line(s)->0;
    assert(v@.subrange(0, line_end as int) =~= line);
    let body_start: usize = if n < v.len() { n + 1 } else { v.len() };
    assert(v@.subrange(body_start as int, v@.len() as int) =~= after_first_nl(s));
    let hash = lit("# ");
    if line_end >= 2 && occurs_at_exec(&v, &hash, 0) {
        assert(starts_with(line, "# "@)) by {
            assert(line.subrange(0, 2) =~= s.subrange(0, 2));
        }
        assert(v@.subrange(2, line_end as int) =~= line.skip(2));
        let (a, b) = trim_range(&v, 2, line_end);
        return (string_of_range(&v, a, b), string_of_range(&v, body_start, v.len()));
    }
    assert(!starts_with(line, "# "@)) by {
        if starts_with(line, "# "@) {
            assert(line.subrange(0, 2) =~= s.subrange(0, 2));
        }
    }
    let (ta, tb) = trim_range(&v, 0, line_end);
    let ghost t = trim(line);
    let open_tag = lit("<!--");
    if tb - ta >= 4 && occurs_at_exec(&v, &open_tag, ta) {
        assert(starts_with(t, "<!--"@)) by {
            assert(t.subrange(0, 4) =~= s.subrange(ta as int, ta + 4));
        }
        assert(v@.subrange(ta + 4, tb as int) =~= t.skip(4));
        let (ra, _rb) = trim_range(&v, ta + 4, tb);
        let ghost r1 = trim_start(t.skip(4));
        assert(v@.subrange(ra as int, tb as int) == r1);
        let key = lit("description:");
        if tb - ra >= 12 && occurs_at_exec(&v, &key, ra) {
            assert(starts_with(r1, "description:"@)) by {
                assert(r1.subrange(0, 12) =~= s.subrange(ra as int, ra + 12));
            }
            assert(v@.subrange(ra + 12, tb as int) =~= r1.skip(12));
            let (qa, _qb) = trim_range(&v, ra + 12, tb);
            let ghost r2 = trim_start(r1.skip(12));
            assert(v@.subrange(qa as int, tb as int) == r2);
            let close_tag = lit("-->");
            if tb - qa >= 3 && occurs_at_exec(&v, &close_tag, tb - 3) {
                assert(ends_with(r2, "-->"@)) by {
                    assert(r2.subrange(r2.len() - 3, r2.len() as int) =~= s.subrange(tb - 3, tb as int));
                }
                assert(v@.subrange(qa as int, tb - 3) =~= r2.take(r2.len() - 3));
                let (da, db) = trim_range(&v, qa, tb - 3);
                return (string_of_range(&v, da, db), string_of_range(&v, body_start, v.len()));
            }
            assert(!ends_with(r2, "-->"@)) by {
                if ends_with(r2, "-->"@) {
                    assert(r2.subrange(r2.len() - 3, r2.len() as int) =~= s.subrange(tb - 3, tb as int));
                }
            }
        } else {
            assert(!starts_with(r1, "description:"@)) by {
                if starts_with(r1, "description:"@) {
                    assert(r1.subrange(0, 12) =~= s.subrange(ra as int, ra + 12));
                }
            }
        }
    } else {
        assert(!starts_with(t, "<!--"@)) by {
            if starts_with(t, "<!--"@) {
                assert(t.subrange(0, 4) =~= s.subrange(ta as int, ta + 4));
            }
        }
    }
    (String::new(), String::from_str(content))
}


/// Declares `std::time::Instant` to the verifier.
#[verifier::external_type_specification]
#[verifier::external_body]
pub struct ExInstant(std::time::Instant);

/// Calls `Instant::now`.
#[verifier::external_body]
fn instant_now() -> std::time::Instant {
    std::time::Instant::now()
}

/// Calls `Instant::elapsed`, in whole milliseconds (truncated to 64 bits);
/// the value depends on the clock, so nothing is stated of it.
#[verifier::external_body]
fn elapsed_millis(start: &std::time::Instant) -> u64 {
    start.elapsed().as_millis() as u64
}

/// Runs a prompt non-interactively: echoes what would be executed.
pub fn execute_prompt(prompt: &str, model: &str, output_format: &str) -> (res: PromptResult)
    ensures
        res.prompt@ == prompt@,
        res.model@ == model@,
        res.response@ == "Would execute prompt with model "@ + model@ + ": "@ + prompt@,
        res.tokens_used == 0,
{
    let _ = output_format;
    let start = instant_now();
    let mut response = String::from_str("Would execute prompt with model ");
    response.append(model);
    response.append(": ");
    response.append(prompt);
    PromptResult {
        prompt: String::from_str(prompt),
        response,
        model: String::from_str(model),
        tokens_used: 0,
        duration_ms: elapsed_millis(&start),
    }
}

} // verus!
