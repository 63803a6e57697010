//! The Dockerfile reader.
use crate::outside::{json_strings, read_json_strings, strings_view};
use crate::text::{
    bare, contains_class, cut_once, holds, is_white, law_bare_drops_white, law_cut_at_the_first,
    law_lines_end_at_line_feeds, law_white_space_parts_words, lemma_first_of, lemma_first_of_is,
    lines, lines_of, slice_text, split_once, split_whitespace, to_chars, trim, words, Class,
};
use vstd::prelude::*;

verus! {

/// One step of a build.
#[derive(Debug)]
pub enum Instruction {
    From(String),
    Run(String),
    Copy { src: String, dst: String },
    Add { src: String, dst: String },
    Workdir(String),
    Env { key: String, value: String },
    Entrypoint(Vec<String>),
    Cmd(Vec<String>),
    User(String),
    Expose(String),
}

/// The mathematical value of an `Instruction`.
pub enum InstructionView {
    From(Seq<char>),
    Run(Seq<char>),
    Copy { src: Seq<char>, dst: Seq<char> },
    Add { src: Seq<char>, dst: Seq<char> },
    Workdir(Seq<char>),
    Env { key: Seq<char>, value: Seq<char> },
    Entrypoint(Seq<Seq<char>>),
    Cmd(Seq<Seq<char>>),
    User(Seq<char>),
    Expose(Seq<char>),
}

impl DeepView for Instruction {
    type V = InstructionView;

    open spec fn deep_view(&self) -> InstructionView {
        match self {
            Instruction::From(s) => InstructionView::From(s@),
            Instruction::Run(s) => InstructionView::Run(s@),
            Instruction::Copy { src, dst } => InstructionView::Copy { src: src@, dst: dst@ },
            Instruction::Add { src, dst } => InstructionView::Add { src: src@, dst: dst@ },
            Instruction::Workdir(s) => InstructionView::Workdir(s@),
            Instruction::Env { key, value } => InstructionView::Env { key: key@, value: value@ },
            Instruction::Entrypoint(v) => InstructionView::Entrypoint(v.deep_view()),
            Instruction::Cmd(v) => InstructionView::Cmd(v.deep_view()),
            Instruction::User(s) => InstructionView::User(s@),
            Instruction::Expose(s) => InstructionView::Expose(s@),
        }
    }
}

impl Clone for Instruction {
    fn clone(&self) -> (r: Self)
        ensures
            r.deep_view() == self.deep_view(),
    {
        match self {
            Instruction::From(s) => Instruction::From(s.clone()),
            Instruction::Run(s) => Instruction::Run(s.clone()),
            Instruction::Copy { src, dst } => Instruction::Copy { src: src.clone(), dst: dst.clone() },
            Instruction::Add { src, dst } => Instruction::Add { src: src.clone(), dst: dst.clone() },
            Instruction::Workdir(s) => Instruction::Workdir(s.clone()),
            Instruction::Env { key, value } => Instruction::Env {
                key: key.clone(),
                value: value.clone(),
            },
            Instruction::Entrypoint(v) => {
                let w = v.clone();
                assert(w.deep_view() =~= v.deep_view());
                Instruction::Entrypoint(w)
            },
            Instruction::Cmd(v) => {
                let w = v.clone();
                assert(w.deep_view() =~= v.deep_view());
                Instruction::Cmd(w)
            },
            Instruction::User(s) => Instruction::User(s.clone()),
            Instruction::Expose(s) => Instruction::Expose(s.clone()),
        }
    }
}

/// The words that start an instruction.
#[derive(Clone, Copy, PartialEq, Eq, Structural)]
pub enum Keyword {
    From,
    Run,
    Copy,
    Add,
    Workdir,
    Env,
    Entrypoint,
    Cmd,
    User,
    Expose,
}

/// The code of the capital of `c` as far as it is a basic Latin letter: besides the small letters
/// these are the dotless i and the long s. Every other character stands for itself.
pub open spec fn capital(c: char) -> u32 {
    let n = c as u32;
    if 0x61 <= n <= 0x7a {
        (n - 0x20) as u32
    } else if n == 0x131 {
        0x49
    } else if n == 0x17f {
        0x53
    } else {
        n
    }
}

/// Whether `word` spells `keyword` in any mixture of cases.
pub open spec fn spells(word: Seq<char>, keyword: Seq<char>) -> bool {
    &&& word.len() == keyword.len()
    &&& forall|i: int| 0 <= i < word.len() ==> capital(#[trigger] word[i]) == keyword[i] as u32
}

/// The keyword that `word` spells.
pub open spec fn keyword_of(word: Seq<char>) -> Option<Keyword> {
    if spells(word, "FROM"@) {
        Some(Keyword::From)
    } else if spells(word, "RUN"@) {
        Some(Keyword::Run)
    } else if spells(word, "COPY"@) {
        Some(Keyword::Copy)
    } else if spells(word, "ADD"@) {
        Some(Keyword::Add)
    } else if spells(word, "WORKDIR"@) {
        Some(Keyword::Workdir)
    } else if spells(word, "ENV"@) {
        Some(Keyword::Env)
    } else if spells(word, "ENTRYPOINT"@) {
        Some(Keyword::Entrypoint)
    } else if spells(word, "CMD"@) {
        Some(Keyword::Cmd)
    } else if spells(word, "USER"@) {
        Some(Keyword::User)
    } else if spells(word, "EXPOSE"@) {
        Some(Keyword::Expose)
    } else {
        None
    }
}

/// The code of the capital of `c`.
fn capital_code(c: char) -> (r: u32)
    ensures
        r == capital(c),
{
    let n: u32 = c as u32;
    if 0x61 <= n && n <= 0x7a {
        n - 0x20
    } else if n == 0x131 {
        0x49
    } else if n == 0x17f {
        0x53
    } else {
        n
    }
}

/// Whether `word` spells `keyword`.
pub fn is_spelling(word: &str, keyword: &str) -> (r: bool)
    ensures
        r == spells(word@, keyword@),
{
    let w = to_chars(word);
    let k = to_chars(keyword);
    if w.len() != k.len() {
        return false;
    }
    let mut i: usize = 0;
    while i < w.len()
        invariant
            i <= w@.len(),
            w@ == word@,
            k@ == keyword@,
            w@.len() == k@.len(),
            forall|j: int| 0 <= j < i ==> capital(#[trigger] w@[j]) == k@[j] as u32,
        decreases w@.len() - i,
    {
        if capital_code(w[i]) != k[i] as u32 {
            return false;
        }
        i = i + 1;
    }
    true
}

/// Which keyword `word` spells.
pub fn find_keyword(word: &str) -> (r: Option<Keyword>)
    ensures
        r == keyword_of(word@),
{
    if is_spelling(word, "FROM") {
        Some(Keyword::From)
    } else if is_spelling(word, "RUN") {
        Some(Keyword::Run)
    } else if is_spelling(word, "COPY") {
        Some(Keyword::Copy)
    } else if is_spelling(word, "ADD") {
        Some(Keyword::Add)
    } else if is_spelling(word, "WORKDIR") {
        Some(Keyword::Workdir)
    } else if is_spelling(word, "ENV") {
        Some(Keyword::Env)
    } else if is_spelling(word, "ENTRYPOINT") {
        Some(Keyword::Entrypoint)
    } else if is_spelling(word, "CMD") {
        Some(Keyword::Cmd)
    } else if is_spelling(word, "USER") {
        Some(Keyword::User)
    } else if is_spelling(word, "EXPOSE") {
        Some(Keyword::Expose)
    } else {
        None
    }
}

/// The program and arguments that `arg` names: the strings of a JSON array where it is written in
/// brackets, else the whole text as one program.
pub open spec fn command_words(arg: Seq<char>) -> Result<Seq<Seq<char>>, Seq<char>> {
    let s = bare(arg);
    if s.len() > 0 && s[0] == '[' && s.last() == ']' {
        json_strings(s)
    } else {
        Ok(seq![s])
    }
}

/// Reads the program and arguments that `s` names.
pub fn parse_json_array(s: &str) -> (r: Result<Vec<String>, String>)
    ensures
        strings_view(r) == command_words(s@),
{
    let t = trim(s);
    let v = to_chars(t.as_str());
    if v.len() > 0 && v[0] == '[' && v[v.len() - 1] == ']' {
        read_json_strings(t.as_str())
    } else {
        let ghost tv = t@;
        let mut one: Vec<String> = Vec::new();
        one.push(t);
        proof {
            assert(one.deep_view() =~= seq![tv]);
        }
        Ok(one)
    }
}

/// The instruction that a list of arguments gives: none where the list could not be read.
pub open spec fn list_instruction(
    keyword: Keyword,
    args: Result<Seq<Seq<char>>, Seq<char>>,
) -> Seq<InstructionView> {
    match args {
        Ok(v) => if keyword == Keyword::Entrypoint {
            seq![InstructionView::Entrypoint(v)]
        } else {
            seq![InstructionView::Cmd(v)]
        },
        Err(_) => Seq::empty(),
    }
}

/// Makes the instruction of an argument list that was read, or of one that could not be.
pub fn from_list(keyword: Keyword, args: Result<Vec<String>, String>) -> (r: Vec<Instruction>)
    ensures
        r.deep_view() == list_instruction(keyword, strings_view(args)),
{
    let mut r: Vec<Instruction> = Vec::new();
    match args {
        Ok(v) => {
            if keyword == Keyword::Entrypoint {
                r.push(Instruction::Entrypoint(v));
            } else {
                r.push(Instruction::Cmd(v));
            }
        },
        Err(_) => {},
    }
    proof {
        assert(r.deep_view() =~= list_instruction(keyword, strings_view(args)));
    }
    r
}

/// The assignment that `key=value` makes; nothing where there is no equals sign.
pub open spec fn assignment(entry: Seq<char>) -> Seq<InstructionView> {
    match cut_once(entry, Class::Only('=')) {
        Some((k, v)) => seq![InstructionView::Env { key: bare(k), value: bare(v) }],
        None => Seq::empty(),
    }
}

/// The assignments of the entries, in order.
pub open spec fn assignments(entries: Seq<Seq<char>>) -> Seq<InstructionView>
    decreases entries.len(),
{
    if entries.len() == 0 {
        Seq::empty()
    } else {
        assignments(entries.drop_last()) + assignment(entries.last())
    }
}

/// What `ENV arg` sets: with an equals sign anywhere, one variable per word that has one; else the
/// first word is the name and the rest the value.
pub open spec fn env_instructions(arg: Seq<char>) -> Seq<InstructionView> {
    if holds(arg, Class::Only('=')) {
        assignments(words(arg))
    } else {
        match cut_once(arg, Class::White) {
            Some((k, v)) => seq![InstructionView::Env { key: bare(k), value: bare(v) }],
            None => Seq::empty(),
        }
    }
}

/// Reads the argument of `ENV`.
pub fn parse_env(arg: &str) -> (r: Vec<Instruction>)
    ensures
        r.deep_view() == env_instructions(arg@),
{
    let mut r: Vec<Instruction> = Vec::new();
    if contains_class(arg, Class::Only('=')) {
        let entries = split_whitespace(arg);
        let ghost ev = entries.deep_view();
        let mut i: usize = 0;
        proof {
            assert(ev.take(0) =~= Seq::<Seq<char>>::empty());
            assert(r.deep_view() =~= assignments(ev.take(0)));
        }
        while i < entries.len()
            invariant
                i <= entries@.len(),
                ev == entries.deep_view(),
                r.deep_view() == assignments(ev.take(i as int)),
            decreases entries@.len() - i,
        {
            let ghost before = r.deep_view();
            proof {
                assert(ev.take(i + 1).drop_last() =~= ev.take(i as int));
                assert(ev.take(i + 1).last() == entries@[i as int]@);
            }
            if let Some((k, v)) = split_once(entries[i].as_str(), Class::Only('=')) {
                r.push(Instruction::Env { key: trim(k.as_str()), value: trim(v.as_str()) });
            }
            proof {
                assert(r.deep_view() =~= before + assignment(entries@[i as int]@));
            }
            i = i + 1;
        }
        proof {
            assert(ev.take(ev.len() as int) =~= ev);
        }
    } else {
        if let Some((k, v)) = split_once(arg, Class::White) {
            r.push(Instruction::Env { key: trim(k.as_str()), value: trim(v.as_str()) });
        }
        proof {
            assert(r.deep_view() =~= env_instructions(arg@));
        }
    }
    r
}

/// What a keyword does with its argument.
pub open spec fn keyword_instructions(keyword: Keyword, arg: Seq<char>) -> Seq<InstructionView> {
    match keyword {
        Keyword::From => seq![InstructionView::From(arg)],
        Keyword::Run => seq![InstructionView::Run(arg)],
        Keyword::Copy => {
            let w = words(arg);
            if w.len() >= 2 {
                seq![InstructionView::Copy { src: w[0], dst: w[1] }]
            } else {
                Seq::empty()
            }
        },
        Keyword::Add => {
            let w = words(arg);
            if w.len() >= 2 {
                seq![InstructionView::Add { src: w[0], dst: w[1] }]
            } else {
                Seq::empty()
            }
        },
        Keyword::Workdir => seq![InstructionView::Workdir(arg)],
        Keyword::Env => env_instructions(arg),
        Keyword::Entrypoint => list_instruction(keyword, command_words(arg)),
        Keyword::Cmd => list_instruction(keyword, command_words(arg)),
        Keyword::User => seq![InstructionView::User(arg)],
        Keyword::Expose => seq![InstructionView::Expose(arg)],
    }
}

/// The instructions of one logical line: its first word is the keyword, what follows it the
/// argument. A line of one word, or with an unknown keyword, gives none.
pub open spec fn line_instructions(line: Seq<char>) -> Seq<InstructionView> {
    match cut_once(line, Class::White) {
        Some((word, rest)) => match keyword_of(word) {
            Some(k) => keyword_instructions(k, bare(rest)),
            None => Seq::empty(),
        },
        None => Seq::empty(),
    }
}

/// Reads what a keyword does with its argument.
pub fn parse_keyword(keyword: Keyword, arg: String) -> (r: Vec<Instruction>)
    ensures
        r.deep_view() == keyword_instructions(keyword, arg@),
{
    let ghost av = arg@;
    let mut r: Vec<Instruction> = Vec::new();
    match keyword {
        Keyword::From => {
            r.push(Instruction::From(arg));
        },
        Keyword::Run => {
            r.push(Instruction::Run(arg));
        },
        Keyword::Copy => {
            let w = split_whitespace(arg.as_str());
            if w.len() >= 2 {
                r.push(Instruction::Copy { src: w[0].clone(), dst: w[1].clone() });
            }
        },
        Keyword::Add => {
            let w = split_whitespace(arg.as_str());
            if w.len() >= 2 {
                r.push(Instruction::Add { src: w[0].clone(), dst: w[1].clone() });
            }
        },
        Keyword::Workdir => {
            r.push(Instruction::Workdir(arg));
        },
        Keyword::Env => {
            return parse_env(arg.as_str());
        },
        Keyword::Entrypoint => {
            return from_list(keyword, parse_json_array(arg.as_str()));
        },
        Keyword::Cmd => {
            return from_list(keyword, parse_json_array(arg.as_str()));
        },
        Keyword::User => {
            r.push(Instruction::User(arg));
        },
        Keyword::Expose => {
            r.push(Instruction::Expose(arg));
        },
    }
    proof {
        assert(r.deep_view() =~= keyword_instructions(keyword, av));
    }
    r
}

/// Reads one logical line.
pub fn parse_line(line: &str) -> (r: Vec<Instruction>)
    ensures
        r.deep_view() == line_instructions(line@),
{
    if let Some((word, rest)) = split_once(line, Class::White) {
        if let Some(keyword) = find_keyword(word.as_str()) {
            return parse_keyword(keyword, trim(rest.as_str()));
        }
    }
    let r: Vec<Instruction> = Vec::new();
    proof {
        assert(r.deep_view() =~= Seq::<InstructionView>::empty());
    }
    r
}

/// How far a Dockerfile has been read: the start of a line that a backslash continues, and the
/// instructions so far.
pub struct Reading {
    pub pending: Seq<char>,
    pub done: Seq<InstructionView>,
}

/// Reads one more physical line. Blank lines and comments are passed over, also between the parts
/// of a continued line; a backslash at the end is dropped, and the line goes on after a space.
pub open spec fn read_line(at: Reading, raw: Seq<char>) -> Reading {
    let t = bare(raw);
    if t.len() == 0 || t[0] == '#' {
        at
    } else if t.last() == '\\' {
        Reading { pending: (at.pending + t.drop_last()).push(' '), done: at.done }
    } else {
        Reading {
            pending: Seq::empty(),
            done: at.done + line_instructions(bare(at.pending + t)),
        }
    }
}

/// Reads the lines in order.
pub open spec fn read_lines(lines: Seq<Seq<char>>) -> Reading
    decreases lines.len(),
{
    if lines.len() == 0 {
        Reading { pending: Seq::empty(), done: Seq::empty() }
    } else {
        read_line(read_lines(lines.drop_last()), lines.last())
    }
}

/// The instructions of a Dockerfile.
pub open spec fn dockerfile(content: Seq<char>) -> Seq<InstructionView> {
    read_lines(lines_of(content)).done
}

/// Reads a Dockerfile. Lines that cannot be read are passed over, and so is a last line that a
/// backslash continues into nothing.
pub fn parse_dockerfile(content: &str) -> (r: Vec<Instruction>)
    ensures
        r.deep_view() == dockerfile(content@),
{
    let all = lines(content);
    let ghost ls = all.deep_view();
    let mut done: Vec<Instruction> = Vec::new();
    let mut pending = String::new();
    let mut i: usize = 0;
    proof {
        assert(ls.take(0) =~= Seq::<Seq<char>>::empty());
        assert(done.deep_view() =~= Seq::<InstructionView>::empty());
    }
    while i < all.len()
        invariant
            i <= all@.len(),
            ls == all.deep_view(),
            done.deep_view() == read_lines(ls.take(i as int)).done,
            pending@ == read_lines(ls.take(i as int)).pending,
        decreases all@.len() - i,
    {
        proof {
            assert(ls.take(i + 1).drop_last() =~= ls.take(i as int));
            assert(ls.take(i + 1).last() == all@[i as int]@);
        }
        let t = trim(all[i].as_str());
        let v = to_chars(t.as_str());
        if v.len() == 0 || v[0] == '#' {
        } else if v[v.len() - 1] == '\\' {
            let part = slice_text(&v, 0, v.len() - 1);
            proof {
                assert(v@.subrange(0, v@.len() - 1) =~= v@.drop_last());
            }
            pending.append(part.as_str());
            pending.push(' ');
        } else {
            pending.append(t.as_str());
            let line = trim(pending.as_str());
            pending = String::new();
            let mut more = parse_line(line.as_str());
            let ghost before = done.deep_view();
            let ghost extra = more.deep_view();
            done.append(&mut more);
            proof {
                assert(done.deep_view() =~= before + extra);
            }
        }
        i = i + 1;
    }
    proof {
        assert(ls.take(ls.len() as int) =~= ls);
    }
    done
}

/// A blank line or a comment changes nothing, wherever it stands.
pub proof fn law_comments_are_passed_over(before: Seq<Seq<char>>, raw: Seq<char>, after: Seq<Seq<char>>)
    requires
        bare(raw).len() == 0 || bare(raw)[0] == '#',
    ensures
        read_lines(before.push(raw) + after) == read_lines(before + after),
    decreases after.len(),
{
    if after.len() == 0 {
        assert(before.push(raw) + after =~= before.push(raw));
        assert(before.push(raw).drop_last() =~= before);
        assert(before + after =~= before);
    } else {
        let rest = after.drop_last();
        law_comments_are_passed_over(before, raw, rest);
        assert((before.push(raw) + after).drop_last() =~= before.push(raw) + rest);
        assert((before + after).drop_last() =~= before + rest);
    }
}

/// Where no line is continued across a place, what stands before it and what stands behind it are
/// read as if they were files of their own.
pub proof fn law_lines_are_read_apart(before: Seq<Seq<char>>, after: Seq<Seq<char>>)
    requires
        read_lines(before).pending.len() == 0,
    ensures
        read_lines(before + after).done == read_lines(before).done + read_lines(after).done,
        read_lines(before + after).pending == read_lines(after).pending,
    decreases after.len(),
{
    if after.len() == 0 {
        assert(before + after =~= before);
        assert(read_lines(before).done + read_lines(after).done =~= read_lines(before).done);
        assert(read_lines(before).pending =~= Seq::<char>::empty());
    } else {
        let rest = after.drop_last();
        law_lines_are_read_apart(before, rest);
        assert((before + after).drop_last() =~= before + rest);
        let t = bare(after.last());
        let line = line_instructions(bare(read_lines(rest).pending + t));
        assert(read_lines(before).done + read_lines(rest).done + line =~= read_lines(before).done + (
        read_lines(rest).done + line));
    }
}

/// A keyword of capitals is spelled by itself, by its small letters and by any mixture of both; the
/// dotless i counts as an I, and the long s as an S, and nothing else does.
pub proof fn law_keyword_in_any_case(word: Seq<char>, keyword: Seq<char>)
    requires
        forall|i: int| 0 <= i < keyword.len() ==> 'A' <= #[trigger] keyword[i] && keyword[i] <= 'Z',
    ensures
        spells(word, keyword) <==> word.len() == keyword.len() && forall|i: int|
            0 <= i < word.len() ==> {
                ||| #[trigger] word[i] == keyword[i]
                ||| word[i] as u32 == keyword[i] as u32 + 0x20
                ||| keyword[i] == 'I' && word[i] as u32 == 0x131
                ||| keyword[i] == 'S' && word[i] as u32 == 0x17f
            },
{
    if word.len() == keyword.len() {
        assert forall|i: int| 0 <= i < word.len() implies {
            capital(#[trigger] word[i]) == keyword[i] as u32 <==> {
                ||| word[i] == keyword[i]
                ||| word[i] as u32 == keyword[i] as u32 + 0x20
                ||| keyword[i] == 'I' && word[i] as u32 == 0x131
                ||| keyword[i] == 'S' && word[i] as u32 == 0x17f
            }
        } by {
            let w = word[i];
            let k = keyword[i];
            assert('A' <= k && k <= 'Z');
            vstd::utf8::char_is_scalar(w);
            vstd::utf8::char_u32_cast(w, w as u32);
            vstd::utf8::char_u32_cast(k, k as u32);
            vstd::utf8::char_u32_cast('I', 'I' as u32);
            vstd::utf8::char_u32_cast('S', 'S' as u32);
        }
    }
}

/// What spells a keyword has no white space in it.
proof fn lemma_keyword_is_a_word(word: Seq<char>, keyword: Seq<char>)
    requires
        spells(word, keyword),
        forall|i: int| 0 <= i < keyword.len() ==> 'A' <= #[trigger] keyword[i] && keyword[i] <= 'Z',
    ensures
        forall|i: int| 0 <= i < word.len() ==> !is_white(#[trigger] word[i]),
{
    assert forall|i: int| 0 <= i < word.len() implies !is_white(#[trigger] word[i]) by {
        assert('A' <= keyword[i] && keyword[i] <= 'Z');
        assert(capital(word[i]) == keyword[i] as u32);
    }
}

/// The keywords are capitals.
proof fn lemma_capitals()
    ensures
        forall|i: int| 0 <= i < "FROM"@.len() ==> 'A' <= #[trigger] "FROM"@[i] && "FROM"@[i] <= 'Z',
        forall|i: int| 0 <= i < "RUN"@.len() ==> 'A' <= #[trigger] "RUN"@[i] && "RUN"@[i] <= 'Z',
        forall|i: int| 0 <= i < "COPY"@.len() ==> 'A' <= #[trigger] "COPY"@[i] && "COPY"@[i] <= 'Z',
        forall|i: int| 0 <= i < "ADD"@.len() ==> 'A' <= #[trigger] "ADD"@[i] && "ADD"@[i] <= 'Z',
        forall|i: int|
            0 <= i < "WORKDIR"@.len() ==> 'A' <= #[trigger] "WORKDIR"@[i] && "WORKDIR"@[i] <= 'Z',
        forall|i: int| 0 <= i < "ENV"@.len() ==> 'A' <= #[trigger] "ENV"@[i] && "ENV"@[i] <= 'Z',
        forall|i: int|
            0 <= i < "ENTRYPOINT"@.len() ==> 'A' <= #[trigger] "ENTRYPOINT"@[i] && "ENTRYPOINT"@[i]
                <= 'Z',
        forall|i: int| 0 <= i < "CMD"@.len() ==> 'A' <= #[trigger] "CMD"@[i] && "CMD"@[i] <= 'Z',
        forall|i: int| 0 <= i < "USER"@.len() ==> 'A' <= #[trigger] "USER"@[i] && "USER"@[i] <= 'Z',
        forall|i: int|
            0 <= i < "EXPOSE"@.len() ==> 'A' <= #[trigger] "EXPOSE"@[i] && "EXPOSE"@[i] <= 'Z',
{
    reveal_strlit("FROM");
    reveal_strlit("RUN");
    reveal_strlit("COPY");
    reveal_strlit("ADD");
    reveal_strlit("WORKDIR");
    reveal_strlit("ENV");
    reveal_strlit("ENTRYPOINT");
    reveal_strlit("CMD");
    reveal_strlit("USER");
    reveal_strlit("EXPOSE");
}

/// Every keyword is found under its own spelling, and under no other.
pub proof fn law_keyword_goes_by_its_spelling(word: Seq<char>)
    ensures
        keyword_of(word) == Some(Keyword::From) <==> spells(word, "FROM"@),
        keyword_of(word) == Some(Keyword::Run) <==> spells(word, "RUN"@),
        keyword_of(word) == Some(Keyword::Copy) <==> spells(word, "COPY"@),
        keyword_of(word) == Some(Keyword::Add) <==> spells(word, "ADD"@),
        keyword_of(word) == Some(Keyword::Workdir) <==> spells(word, "WORKDIR"@),
        keyword_of(word) == Some(Keyword::Env) <==> spells(word, "ENV"@),
        keyword_of(word) == Some(Keyword::Entrypoint) <==> spells(word, "ENTRYPOINT"@),
        keyword_of(word) == Some(Keyword::Cmd) <==> spells(word, "CMD"@),
        keyword_of(word) == Some(Keyword::User) <==> spells(word, "USER"@),
        keyword_of(word) == Some(Keyword::Expose) <==> spells(word, "EXPOSE"@),
{
    reveal_strlit("FROM");
    reveal_strlit("RUN");
    reveal_strlit("COPY");
    reveal_strlit("ADD");
    reveal_strlit("WORKDIR");
    reveal_strlit("ENV");
    reveal_strlit("ENTRYPOINT");
    reveal_strlit("CMD");
    reveal_strlit("USER");
    reveal_strlit("EXPOSE");
    if word.len() > 0 {
        let c = capital(word[0]);
        assert(spells(word, "FROM"@) ==> c == 'F' as u32);
        assert(spells(word, "COPY"@) ==> c == 'C' as u32);
        assert(spells(word, "USER"@) ==> c == 'U' as u32);
        assert(spells(word, "RUN"@) ==> c == 'R' as u32);
        assert(spells(word, "ADD"@) ==> c == 'A' as u32);
        assert(spells(word, "ENV"@) ==> c == 'E' as u32);
        assert(spells(word, "CMD"@) ==> c == 'C' as u32);
    }
}

/// A keyword has no white space in it.
proof fn lemma_found_keyword_is_a_word(word: Seq<char>)
    requires
        keyword_of(word) is Some,
    ensures
        forall|i: int| 0 <= i < word.len() ==> !is_white(#[trigger] word[i]),
{
    lemma_capitals();
    if spells(word, "FROM"@) {
        lemma_keyword_is_a_word(word, "FROM"@);
    } else if spells(word, "RUN"@) {
        lemma_keyword_is_a_word(word, "RUN"@);
    } else if spells(word, "COPY"@) {
        lemma_keyword_is_a_word(word, "COPY"@);
    } else if spells(word, "ADD"@) {
        lemma_keyword_is_a_word(word, "ADD"@);
    } else if spells(word, "WORKDIR"@) {
        lemma_keyword_is_a_word(word, "WORKDIR"@);
    } else if spells(word, "ENV"@) {
        lemma_keyword_is_a_word(word, "ENV"@);
    } else if spells(word, "ENTRYPOINT"@) {
        lemma_keyword_is_a_word(word, "ENTRYPOINT"@);
    } else if spells(word, "CMD"@) {
        lemma_keyword_is_a_word(word, "CMD"@);
    } else if spells(word, "USER"@) {
        lemma_keyword_is_a_word(word, "USER"@);
    } else {
        lemma_keyword_is_a_word(word, "EXPOSE"@);
    }
}

/// The line is cut behind its keyword.
proof fn lemma_line_is_cut(word: Seq<char>, c: char, arg: Seq<char>)
    requires
        keyword_of(word) is Some,
        is_white(c),
    ensures
        line_instructions(word + seq![c] + arg) == keyword_instructions(
            keyword_of(word)->0,
            bare(arg),
        ),
{
    lemma_found_keyword_is_a_word(word);
    assert forall|i: int| 0 <= i < word.len() implies !Class::White.has(#[trigger] word[i]) by {}
    law_cut_at_the_first(word, c, arg, Class::White);
}

/// An instruction that takes one argument gets all that follows the keyword, however it is spelled,
/// without the white space around it.
pub proof fn law_argument_is_kept(word: Seq<char>, c: char, a: Seq<char>, arg: Seq<char>, b: Seq<char>)
    requires
        is_white(c),
        forall|i: int| 0 <= i < a.len() ==> is_white(#[trigger] a[i]),
        forall|i: int| 0 <= i < b.len() ==> is_white(#[trigger] b[i]),
        arg.len() > 0 ==> !is_white(arg[0]) && !is_white(arg.last()),
    ensures
        ({
            let r = line_instructions(word + seq![c] + (a + arg + b));
            &&& spells(word, "FROM"@) ==> r == seq![InstructionView::From(arg)]
            &&& spells(word, "RUN"@) ==> r == seq![InstructionView::Run(arg)]
            &&& spells(word, "WORKDIR"@) ==> r == seq![InstructionView::Workdir(arg)]
            &&& spells(word, "USER"@) ==> r == seq![InstructionView::User(arg)]
            &&& spells(word, "EXPOSE"@) ==> r == seq![InstructionView::Expose(arg)]
        }),
{
    law_keyword_goes_by_its_spelling(word);
    law_bare_drops_white(a, arg, b);
    if keyword_of(word) is Some {
        lemma_line_is_cut(word, c, a + arg + b);
    }
}

/// `COPY` and `ADD` take the first word of their argument as the source and the second as the
/// destination; with fewer than two words they do nothing.
pub proof fn law_copy_takes_two_words(
    word: Seq<char>,
    c: char,
    src: Seq<char>,
    d: char,
    dst: Seq<char>,
    e: char,
    more: Seq<char>,
)
    requires
        is_white(c) && is_white(d) && is_white(e),
        src.len() > 0 && dst.len() > 0,
        forall|i: int| 0 <= i < src.len() ==> !is_white(#[trigger] src[i]),
        forall|i: int| 0 <= i < dst.len() ==> !is_white(#[trigger] dst[i]),
        more.len() > 0 ==> !is_white(more.last()),
    ensures
        ({
            let both = word + seq![c] + (src + seq![d] + dst);
            let longer = word + seq![c] + (src + seq![d] + dst + seq![e] + more);
            let one = word + seq![c] + src;
            &&& spells(word, "COPY"@) ==> line_instructions(both) == seq![
                InstructionView::Copy { src, dst },
            ] && (more.len() > 0 ==> line_instructions(longer) == seq![
                InstructionView::Copy { src, dst },
            ]) && line_instructions(one).len() == 0
            &&& spells(word, "ADD"@) ==> line_instructions(both) == seq![
                InstructionView::Add { src, dst },
            ] && (more.len() > 0 ==> line_instructions(longer) == seq![
                InstructionView::Add { src, dst },
            ]) && line_instructions(one).len() == 0
        }),
{
    let none = Seq::<char>::empty();
    let arg = src + seq![d] + dst;
    let long = arg + seq![e] + more;
    law_keyword_goes_by_its_spelling(word);
    law_white_space_parts_words(src, d, dst);
    law_white_space_parts_words(dst, e, none);
    law_white_space_parts_words(arg, e, more);
    assert(arg[0] == src[0] && arg.last() == dst[dst.len() - 1]);
    law_bare_drops_white(none, arg, none);
    assert(none + arg + none =~= arg);
    assert(src[0] == src.first() && src.last() == src[src.len() - 1]);
    law_bare_drops_white(none, src, none);
    assert(none + src + none =~= src);
    assert(long[0] == src[0]);
    if more.len() > 0 {
        assert(long.last() == more.last());
        law_bare_drops_white(none, long, none);
        assert(none + long + none =~= long);
    }
    assert(words(arg) =~= seq![src, dst]);
    assert(words(long)[0] == src && words(long)[1] == dst);
    if keyword_of(word) is Some {
        lemma_line_is_cut(word, c, arg);
        lemma_line_is_cut(word, c, long);
        lemma_line_is_cut(word, c, src);
    }
}

/// `ENV` with one variable: a name and, behind white space, its value; or a name and a value with an
/// equals sign between them.
pub proof fn law_env_sets_a_variable(key: Seq<char>, c: char, value: Seq<char>)
    requires
        is_white(c),
        key.len() > 0,
        forall|i: int| 0 <= i < key.len() ==> !is_white(#[trigger] key[i]) && key[i] != '=',
        value.len() > 0 ==> !is_white(value[0]) && !is_white(value.last()),
    ensures
        (forall|i: int| 0 <= i < value.len() ==> #[trigger] value[i] != '=') ==> env_instructions(
            key + seq![c] + value,
        ) == seq![InstructionView::Env { key, value }],
        (forall|i: int| 0 <= i < value.len() ==> !is_white(#[trigger] value[i])) ==> env_instructions(
            key + seq!['='] + value,
        ) == seq![InstructionView::Env { key, value }],
{
    let none = Seq::<char>::empty();
    let eq = Class::Only('=');
    assert(!is_white(key[0]) && !is_white(key[key.len() - 1]));
    law_bare_drops_white(none, key, none);
    assert(none + key + none =~= key);
    law_bare_drops_white(none, value, none);
    assert(none + value + none =~= value);
    assert forall|i: int| 0 <= i < key.len() implies !Class::White.has(#[trigger] key[i]) by {}
    assert forall|i: int| 0 <= i < key.len() implies !eq.has(#[trigger] key[i]) by {}
    law_cut_at_the_first(key, c, value, Class::White);
    law_cut_at_the_first(key, '=', value, eq);
    if forall|i: int| 0 <= i < value.len() ==> #[trigger] value[i] != '=' {
        let s = key + seq![c] + value;
        assert forall|i: int| 0 <= i < s.len() implies !eq.has(#[trigger] s[i]) by {
            if i < key.len() {
                assert(s[i] == key[i]);
            } else if i == key.len() {
                assert(s[i] == c);
            } else {
                assert(s[i] == value[i - key.len() - 1]);
            }
        }
        lemma_first_of_is(s, eq, s.len() as int);
    }
    if forall|i: int| 0 <= i < value.len() ==> !is_white(#[trigger] value[i]) {
        let s = key + seq!['='] + value;
        assert forall|i: int| 0 <= i < s.len() implies !is_white(#[trigger] s[i]) by {
            if i < key.len() {
                assert(s[i] == key[i]);
            } else if i > key.len() {
                assert(s[i] == value[i - key.len() - 1]);
            }
        }
        law_white_space_parts_words(s, c, none);
        assert(seq![s].drop_last() =~= Seq::<Seq<char>>::empty());
        assert(seq![s].last() == s);
        let nothing = Seq::<Seq<char>>::empty();
        assert(assignments(nothing) =~= Seq::<InstructionView>::empty());
        assert(assignments(seq![s]) =~= assignment(s));
    }
}

/// Every further word with an equals sign in it sets one more variable, behind the others; a further
/// word without one sets none.
pub proof fn law_env_sets_one_more(rest: Seq<char>, c: char, key: Seq<char>, value: Seq<char>)
    requires
        is_white(c),
        exists|i: int| 0 <= i < rest.len() && #[trigger] rest[i] == '=',
        key.len() > 0,
        forall|i: int| 0 <= i < key.len() ==> !is_white(#[trigger] key[i]) && key[i] != '=',
        forall|i: int| 0 <= i < value.len() ==> !is_white(#[trigger] value[i]),
    ensures
        env_instructions(rest + seq![c] + (key + seq!['='] + value)) == env_instructions(rest).push(
            InstructionView::Env { key, value },
        ),
        env_instructions(rest + seq![c] + key) == env_instructions(rest),
{
    let none = Seq::<char>::empty();
    let eq = Class::Only('=');
    let entry = key + seq!['='] + value;
    law_env_sets_a_variable(key, c, value);
    let i = choose|i: int| 0 <= i < rest.len() && #[trigger] rest[i] == '=';
    let s = rest + seq![c] + entry;
    let t = rest + seq![c] + key;
    lemma_first_of(rest, eq);
    lemma_first_of(s, eq);
    lemma_first_of(t, eq);
    assert(s[i] == '=' && t[i] == '=');
    assert(eq.has(rest[i]) && eq.has(s[i]) && eq.has(t[i]));
    assert forall|k: int| 0 <= k < entry.len() implies !is_white(#[trigger] entry[k]) by {
        if k < key.len() {
            assert(entry[k] == key[k]);
        } else if k > key.len() {
            assert(entry[k] == value[k - key.len() - 1]);
        }
    }
    law_white_space_parts_words(rest, c, entry);
    law_white_space_parts_words(entry, c, none);
    law_white_space_parts_words(rest, c, key);
    law_white_space_parts_words(key, c, none);
    let w = words(rest);
    assert((w + seq![entry]).drop_last() =~= w);
    assert((w + seq![key]).drop_last() =~= w);
    assert forall|k: int| 0 <= k < key.len() implies !eq.has(#[trigger] key[k]) by {}
    law_cut_at_the_first(key, '=', value, eq);
    assert(!is_white(key[0]) && !is_white(key[key.len() - 1]));
    law_bare_drops_white(none, key, none);
    assert(none + key + none =~= key);
    if value.len() > 0 {
        assert(!is_white(value[0]) && !is_white(value[value.len() - 1]));
    }
    law_bare_drops_white(none, value, none);
    assert(none + value + none =~= value);
    assert(assignments(w + seq![entry]) =~= assignments(w).push(
        InstructionView::Env { key, value },
    ));
    assert(assignments(w + seq![key]) =~= assignments(w));
}

/// `CMD` and `ENTRYPOINT` take a text in brackets as a JSON array of strings, and do nothing where it
/// is not one; any other text is a program of its own.
pub proof fn law_command_in_brackets_or_not(word: Seq<char>, c: char, arg: Seq<char>)
    requires
        is_white(c),
        arg.len() > 0,
        !is_white(arg[0]) && !is_white(arg.last()),
    ensures
        ({
            let r = line_instructions(word + seq![c] + arg);
            let list = if arg[0] == '[' && arg.last() == ']' {
                json_strings(arg)
            } else {
                Ok(seq![arg])
            };
            &&& spells(word, "CMD"@) ==> match list {
                Ok(v) => r == seq![InstructionView::Cmd(v)],
                Err(_) => r.len() == 0,
            }
            &&& spells(word, "ENTRYPOINT"@) ==> match list {
                Ok(v) => r == seq![InstructionView::Entrypoint(v)],
                Err(_) => r.len() == 0,
            }
        }),
{
    let none = Seq::<char>::empty();
    law_keyword_goes_by_its_spelling(word);
    law_bare_drops_white(none, arg, none);
    assert(none + arg + none =~= arg);
    if keyword_of(word) is Some {
        lemma_line_is_cut(word, c, arg);
    }
}

/// A line that is not continued adds the instructions of what was pending and of itself; a backslash
/// at the end of a line stands for a space, as if the line that follows stood on the same one.
pub proof fn law_backslash_continues_the_line(
    before: Seq<Seq<char>>,
    a: Seq<char>,
    b: Seq<char>,
    after: Seq<Seq<char>>,
)
    requires
        a.len() > 0 && b.len() > 0,
        !is_white(a[0]) && a[0] != '#',
        !is_white(b[0]) && b[0] != '#',
        !is_white(b.last()) && b.last() != '\\',
    ensures
        read_lines(before.push(a.push('\\')).push(b) + after) == read_lines(
            before.push(a.push(' ') + b) + after,
        ),
        read_lines(before.push(b)).done == read_lines(before).done + line_instructions(
            bare(read_lines(before).pending + b),
        ),
        read_lines(before.push(b)).pending.len() == 0,
    decreases after.len(),
{
    let none = Seq::<char>::empty();
    let first = a.push('\\');
    let whole = a.push(' ') + b;
    if after.len() == 0 {
        law_bare_drops_white(none, first, none);
        assert(none + first + none =~= first);
        law_bare_drops_white(none, b, none);
        assert(none + b + none =~= b);
        assert(whole[0] == a[0] && whole.last() == b.last());
        law_bare_drops_white(none, whole, none);
        assert(none + whole + none =~= whole);
        assert(before.push(first).push(b) + after =~= before.push(first).push(b));
        assert(before.push(whole) + after =~= before.push(whole));
        assert(before.push(first).push(b).drop_last() =~= before.push(first));
        assert(before.push(first).drop_last() =~= before);
        assert(before.push(whole).drop_last() =~= before);
        assert(before.push(b).drop_last() =~= before);
        let p = read_lines(before).pending;
        assert(first.drop_last() =~= a);
        assert(read_lines(before.push(first)) == read_line(read_lines(before), first));
        assert(read_lines(before.push(first).push(b)) == read_line(
            read_lines(before.push(first)),
            b,
        ));
        assert(read_lines(before.push(whole)) == read_line(read_lines(before), whole));
        assert((p + a).push(' ') + b =~= p + whole);
    } else {
        let rest = after.drop_last();
        law_backslash_continues_the_line(before, a, b, rest);
        assert((before.push(first).push(b) + after).drop_last() =~= before.push(first).push(b)
            + rest);
        assert((before.push(whole) + after).drop_last() =~= before.push(whole) + rest);
    }
}

/// A Dockerfile is read line by line.
pub proof fn law_dockerfile_is_read_by_lines(a: Seq<char>, b: Seq<char>)
    requires
        a.len() > 0,
        forall|i: int| 0 <= i < a.len() ==> #[trigger] a[i] != '\n',
        a.last() != '\r',
        !is_white(a[0]) && a[0] != '#' && !is_white(a.last()) && a.last() != '\\',
    ensures
        dockerfile(a) == line_instructions(a),
        dockerfile(a + seq!['\n'] + b) == line_instructions(a) + dockerfile(b),
        dockerfile(Seq::<char>::empty()).len() == 0,
{
    let none = Seq::<Seq<char>>::empty();
    law_lines_end_at_line_feeds(a, b);
    assert(none.push(a) =~= seq![a]);
    law_backslash_continues_the_line(none, a, a, none);
    let empty = Seq::<char>::empty();
    assert(empty + a =~= a);
    law_bare_drops_white(empty, a, empty);
    assert(empty + a + empty =~= a);
    assert(read_lines(none).done + line_instructions(a) =~= line_instructions(a));
    law_lines_are_read_apart(seq![a], lines_of(b));
}

} // verus!
