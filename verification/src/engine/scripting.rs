//! The scripting panel: scripts being edited, by name, with syntax checking,
//! formatting and documentation.
use vstd::prelude::*;
use crate::ast::{Program, SpecProgram, view_program};
use crate::parser::{ParseError, parse_source, program_of_source, parse_error_text};
use crate::text::{
    chars_of, same_chars, push_str_chars, push_chars, push_decimal, string_from_chars, decimal,
    split_lines, split_lines_chars, trim, trim_chars, starts_with, starts_with_chars, contains_text,
    contains_chars, no_newline, is_whitespace, lemma_split_lines_single, lemma_split_lines_join,
    lemma_split_lines_no_newline, lemma_split_lines_nonempty, lemma_trim_ends, lemma_trim_fixed, lemma_trim_indented,
};

verus! {

/// One match of a search.
#[derive(Debug, Clone)]
pub struct SearchResult {
    pub script_name: String,
    pub line: usize,
    pub column: usize,
    pub match_text: String,
    pub context_before: String,
    pub context_after: String,
}

/// Where an error was found.
#[derive(Debug, Clone, Copy, PartialEq, Eq, Structural)]
pub enum ErrorType {
    Lexer,
    Parser,
    Runtime,
}

/// An error found in a script.
#[derive(Debug, Clone)]
pub struct SyntaxError {
    pub line: usize,
    pub column: usize,
    pub message: String,
    pub error_type: ErrorType,
}

/// A script being edited.
#[derive(Debug)]
pub struct ScriptEditor {
    pub name: String,
    pub code: String,
    pub file_path: String,
    pub is_dirty: bool,
    pub cursor_position: usize,
    pub syntax_errors: Vec<SyntaxError>,
    pub auto_save: bool,
}

/// The scripts by name: the last script of a name wins.
pub open spec fn script_map(s: Seq<ScriptEditor>) -> Map<Seq<char>, ScriptEditor>
    decreases s.len(),
{
    if s.len() == 0 {
        Map::empty()
    } else {
        script_map(s.drop_last()).insert(s.last().name@, s.last())
    }
}

/// Whether no two scripts have the same name.
pub open spec fn names_distinct(s: Seq<ScriptEditor>) -> bool {
    forall|i: int, j: int| 0 <= i < j < s.len() ==> (#[trigger] s[i]).name@ != (#[trigger] s[j]).name@
}

pub proof fn lemma_script_map_keys(s: Seq<ScriptEditor>, n: Seq<char>)
    ensures
        script_map(s).contains_key(n) <==> exists|i: int| 0 <= i < s.len() && (#[trigger] s[i]).name@ == n,
    decreases s.len(),
{
    if s.len() > 0 {
        lemma_script_map_keys(s.drop_last(), n);
        if script_map(s.drop_last()).contains_key(n) {
            let i = choose|i: int| 0 <= i < s.drop_last().len() && (#[trigger] s.drop_last()[i]).name@ == n;
            assert(s[i] == s.drop_last()[i]);
        }
        if exists|i: int| 0 <= i < s.len() && (#[trigger] s[i]).name@ == n {
            let i = choose|i: int| 0 <= i < s.len() && (#[trigger] s[i]).name@ == n;
            if i < s.len() - 1 {
                assert(s.drop_last()[i] == s[i]);
            }
        }
    }
}

pub proof fn lemma_script_map_at(s: Seq<ScriptEditor>, i: int)
    requires
        names_distinct(s),
        0 <= i < s.len(),
    ensures
        script_map(s).contains_key(s[i].name@),
        script_map(s)[s[i].name@] == s[i],
    decreases s.len(),
{
    if i < s.len() - 1 {
        let d = s.drop_last();
        assert(d[i] == s[i]);
        assert(names_distinct(d)) by {
            assert forall|a: int, b: int| 0 <= a < b < d.len() implies (#[trigger] d[a]).name@ != (#[trigger] d[b]).name@ by {
                assert(d[a] == s[a] && d[b] == s[b]);
            }
        }
        lemma_script_map_at(d, i);
        assert(s[i].name@ != s.last().name@);
    }
}

proof fn lemma_distinct_update(s: Seq<ScriptEditor>, k: int, e: ScriptEditor)
    requires
        names_distinct(s),
        0 <= k < s.len(),
        e.name@ == s[k].name@,
    ensures
        names_distinct(s.update(k, e)),
        script_map(s.update(k, e)) == script_map(s).insert(e.name@, e),
{
    let t = s.update(k, e);
    assert forall|a: int, b: int| 0 <= a < b < t.len() implies (#[trigger] t[a]).name@ != (#[trigger] t[b]).name@ by {
        assert(t[a].name@ == s[a].name@ && t[b].name@ == s[b].name@);
    }
    assert forall|n: Seq<char>| #[trigger] script_map(t).contains_key(n) == script_map(s).insert(e.name@, e).contains_key(n) by {
        lemma_script_map_keys(t, n);
        lemma_script_map_keys(s, n);
        if exists|i: int| 0 <= i < t.len() && (#[trigger] t[i]).name@ == n {
            let i = choose|i: int| 0 <= i < t.len() && (#[trigger] t[i]).name@ == n;
            assert(s[i].name@ == n);
        }
        if exists|i: int| 0 <= i < s.len() && (#[trigger] s[i]).name@ == n {
            let i = choose|i: int| 0 <= i < s.len() && (#[trigger] s[i]).name@ == n;
            assert(t[i].name@ == n);
        }
        if n == e.name@ {
            assert(t[k].name@ == n);
        }
    }
    assert forall|n: Seq<char>| #[trigger] script_map(t).contains_key(n) implies script_map(t)[n] == script_map(s).insert(e.name@, e)[n] by {
        lemma_script_map_keys(t, n);
        let i = choose|i: int| 0 <= i < t.len() && (#[trigger] t[i]).name@ == n;
        lemma_script_map_at(t, i);
        if i != k {
            lemma_script_map_at(s, i);
        }
    }
    assert(script_map(t) =~= script_map(s).insert(e.name@, e));
}

proof fn lemma_distinct_remove(s: Seq<ScriptEditor>, k: int)
    requires
        names_distinct(s),
        0 <= k < s.len(),
    ensures
        names_distinct(s.remove(k)),
        script_map(s.remove(k)) == script_map(s).remove(s[k].name@),
{
    let t = s.remove(k);
    assert forall|a: int, b: int| 0 <= a < b < t.len() implies (#[trigger] t[a]).name@ != (#[trigger] t[b]).name@ by {
        let a2 = if a < k { a } else { a + 1 };
        let b2 = if b < k { b } else { b + 1 };
        assert(t[a] == s[a2] && t[b] == s[b2]);
    }
    assert forall|n: Seq<char>| #[trigger] script_map(t).contains_key(n) == script_map(s).remove(s[k].name@).contains_key(n) by {
        lemma_script_map_keys(t, n);
        lemma_script_map_keys(s, n);
        if exists|i: int| 0 <= i < t.len() && (#[trigger] t[i]).name@ == n {
            let i = choose|i: int| 0 <= i < t.len() && (#[trigger] t[i]).name@ == n;
            let i2 = if i < k { i } else { i + 1 };
            assert(s[i2].name@ == n);
            assert(i2 != k);
        }
        if exists|i: int| 0 <= i < s.len() && (#[trigger] s[i]).name@ == n && n != s[k].name@ {
            let i = choose|i: int| 0 <= i < s.len() && (#[trigger] s[i]).name@ == n && n != s[k].name@;
            let i2 = if i < k { i } else { i - 1 };
            assert(t[i2].name@ == n);
        }
    }
    assert forall|n: Seq<char>| #[trigger] script_map(t).contains_key(n) implies script_map(t)[n] == script_map(s).remove(s[k].name@)[n] by {
        lemma_script_map_keys(t, n);
        let i = choose|i: int| 0 <= i < t.len() && (#[trigger] t[i]).name@ == n;
        lemma_script_map_at(t, i);
        let i2 = if i < k { i } else { i + 1 };
        assert(t[i] == s[i2]);
        lemma_script_map_at(s, i2);
    }
    assert(script_map(t) =~= script_map(s).remove(s[k].name@));
}

/// A script just created: named `name`, holding `code`, saved to
/// `<name>.matrix`, not saved yet, without errors.
pub open spec fn fresh_script(e: ScriptEditor, name: Seq<char>, code: Seq<char>, path: Seq<char>) -> bool {
    &&& e.name@ == name
    &&& e.code@ == code
    &&& e.file_path@ == path
    &&& e.is_dirty
    &&& e.cursor_position == 0
    &&& e.syntax_errors@.len() == 0
    &&& !e.auto_save
}

/// The script a new panel opens.
pub open spec fn default_script_template() -> Seq<char> {
    "-- Matrix Language Script\n-- Welcome to the Matrix Language scripting environment!\n\n-- Basic variables\nlet x = 5\nlet y = 10.5\nlet message = \"Hello, Matrix!\"\n\n-- Function definition\nlet add = (a: Int, b: Int) => a + b\n\n-- Define a 3D game object structure\nstruct GameObject {\n    name: String,\n    x: Float,\n    y: Float,\n    z: Float,\n    r: Float,\n    g: Float,\n    b: Float,\n    a: Float\n}\n\n-- Create a 3D cube object in the viewport\nlet cube = GameObject {\n    name: \"Cube\",\n    x: 0.0,\n    y: 0.0,\n    z: 0.0,\n    r: 1.0,\n    g: 0.0,\n    b: 0.0,\n    a: 1.0\n}\n\n-- Create a plane object\nlet plane = GameObject {\n    name: \"Plane\",\n    x: 0.0,\n    y: -1.0,\n    z: 0.0,\n    r: 0.0,\n    g: 1.0,\n    b: 0.0,\n    a: 1.0\n}\n\n-- Define physics object structure\nstruct PhysicsObject {\n    name: String,\n    x: Float,\n    y: Float,\n    z: Float,\n    vx: Float,\n    vy: Float,\n    vz: Float,\n    mass: Float\n}\n\n-- Physics object with mass and velocity\nlet physicsObject = PhysicsObject {\n    name: \"PhysicsObject\",\n    x: 3.0,\n    y: 5.0,\n    z: 0.0,\n    vx: 0.0,\n    vy: -1.0,\n    vz: 0.0,\n    mass: 1.0\n}\n\n-- Calculate result\nlet result = add(x, 3)\n"@
}

/// The default script, as a string.
pub fn get_default_script_template() -> (s: String)
    ensures
        s@ == default_script_template(),
{
    "-- Matrix Language Script\n-- Welcome to the Matrix Language scripting environment!\n\n-- Basic variables\nlet x = 5\nlet y = 10.5\nlet message = \"Hello, Matrix!\"\n\n-- Function definition\nlet add = (a: Int, b: Int) => a + b\n\n-- Define a 3D game object structure\nstruct GameObject {\n    name: String,\n    x: Float,\n    y: Float,\n    z: Float,\n    r: Float,\n    g: Float,\n    b: Float,\n    a: Float\n}\n\n-- Create a 3D cube object in the viewport\nlet cube = GameObject {\n    name: \"Cube\",\n    x: 0.0,\n    y: 0.0,\n    z: 0.0,\n    r: 1.0,\n    g: 0.0,\n    b: 0.0,\n    a: 1.0\n}\n\n-- Create a plane object\nlet plane = GameObject {\n    name: \"Plane\",\n    x: 0.0,\n    y: -1.0,\n    z: 0.0,\n    r: 0.0,\n    g: 1.0,\n    b: 0.0,\n    a: 1.0\n}\n\n-- Define physics object structure\nstruct PhysicsObject {\n    name: String,\n    x: Float,\n    y: Float,\n    z: Float,\n    vx: Float,\n    vy: Float,\n    vz: Float,\n    mass: Float\n}\n\n-- Physics object with mass and velocity\nlet physicsObject = PhysicsObject {\n    name: \"PhysicsObject\",\n    x: 3.0,\n    y: 5.0,\n    z: 0.0,\n    vx: 0.0,\n    vy: -1.0,\n    vz: 0.0,\n    mass: 1.0\n}\n\n-- Calculate result\nlet result = add(x, 3)\n".to_owned()
}


/// How a parse error is reported in the list of errors of a script.
pub open spec fn reports(x: SyntaxError, err: ParseError) -> bool {
    &&& x.line == err.line
    &&& x.column == 1
    &&& x.message@ == parse_error_text(err)
    &&& x.error_type == ErrorType::Parser
}

/// `f` is `e` after its syntax was checked: its errors are those of parsing
/// its code, none or the one the parser stopped at.
pub open spec fn syntax_checked(e: ScriptEditor, f: ScriptEditor) -> bool {
    &&& f.name == e.name
    &&& f.code == e.code
    &&& f.file_path == e.file_path
    &&& f.is_dirty == e.is_dirty
    &&& f.cursor_position == e.cursor_position
    &&& f.auto_save == e.auto_save
    &&& match program_of_source(e.code@) {
        Ok(_) => f.syntax_errors@.len() == 0,
        Err(err) => f.syntax_errors@.len() == 1 && reports(f.syntax_errors@[0], err),
    }
}

/// A trimmed, non-empty line as the formatter writes it: indented by four
/// spaces unless it opens or closes a block.
pub open spec fn format_line(t: Seq<char>) -> Seq<char> {
    if t[0] == '}' || t.last() == '{' {
        t
    } else {
        "    "@ + t
    }
}

/// The lines the formatter keeps: each trimmed, the empty ones dropped, the
/// others formatted.
pub open spec fn formatted_lines(ls: Seq<Seq<char>>) -> Seq<Seq<char>>
    decreases ls.len(),
{
    if ls.len() == 0 {
        Seq::empty()
    } else {
        let p = formatted_lines(ls.drop_last());
        let t = trim(ls.last());
        if t.len() == 0 {
            p
        } else {
            p.push(format_line(t))
        }
    }
}

/// Lines joined by `\n`.
pub open spec fn join_lines(ls: Seq<Seq<char>>) -> Seq<char>
    decreases ls.len(),
{
    if ls.len() == 0 {
        Seq::empty()
    } else if ls.len() == 1 {
        ls[0]
    } else {
        join_lines(ls.drop_last()) + seq!['\n'] + ls.last()
    }
}

/// The formatted text of a script.
pub open spec fn formatted_code(code: Seq<char>) -> Seq<char> {
    join_lines(formatted_lines(split_lines(code)))
}

/// A line the formatter could have written: without `\n`, not blank, and
/// written again the same.
pub open spec fn formatted_line(x: Seq<char>) -> bool {
    &&& no_newline(x)
    &&& trim(x).len() > 0
    &&& format_line(trim(x)) == x
}

proof fn lemma_format_line_formatted(line: Seq<char>)
    requires
        no_newline(line),
        trim(line).len() > 0,
    ensures
        formatted_line(format_line(trim(line))),
{
    let t = trim(line);
    lemma_trim_ends(line);
    let a = choose|a: int| 0 <= a && a + t.len() <= line.len() && #[trigger] line.subrange(a, a + t.len()) == t;
    assert forall|i: int| 0 <= i < t.len() implies t[i] != '\n' by {
        assert(t[i] == line[a + i]);
    }
    let x = format_line(t);
    if t[0] == '}' || t.last() == '{' {
        lemma_trim_fixed(t);
    } else {
        lemma_trim_indented(t);
        reveal_strlit("    ");
        assert forall|i: int| 0 <= i < x.len() implies x[i] != '\n' by {
            if i >= 4 {
                assert(x[i] == t[i - 4]);
            }
        }
    }
}

proof fn lemma_formatted_lines_formatted(ls: Seq<Seq<char>>)
    requires
        forall|i: int| 0 <= i < ls.len() ==> no_newline(#[trigger] ls[i]),
    ensures
        forall|j: int| 0 <= j < formatted_lines(ls).len() ==> formatted_line(#[trigger] formatted_lines(ls)[j]),
    decreases ls.len(),
{
    if ls.len() > 0 {
        let d = ls.drop_last();
        assert forall|i: int| 0 <= i < d.len() implies no_newline(#[trigger] d[i]) by {
            assert(d[i] == ls[i]);
        }
        lemma_formatted_lines_formatted(d);
        let t = trim(ls.last());
        if t.len() > 0 {
            assert(no_newline(ls[ls.len() - 1]));
            lemma_format_line_formatted(ls.last());
            let p = formatted_lines(d);
            assert forall|j: int| 0 <= j < formatted_lines(ls).len() implies formatted_line(#[trigger] formatted_lines(ls)[j]) by {
                if j < p.len() {
                    assert(formatted_lines(ls)[j] == p[j]);
                }
            }
        }
    }
}

proof fn lemma_formatted_lines_fixed(ls: Seq<Seq<char>>)
    requires
        forall|j: int| 0 <= j < ls.len() ==> formatted_line(#[trigger] ls[j]),
    ensures
        formatted_lines(ls) == ls,
    decreases ls.len(),
{
    if ls.len() > 0 {
        let d = ls.drop_last();
        assert forall|j: int| 0 <= j < d.len() implies formatted_line(#[trigger] d[j]) by {
            assert(d[j] == ls[j]);
        }
        lemma_formatted_lines_fixed(d);
        assert(formatted_line(ls[ls.len() - 1]));
        assert(d.push(ls.last()) =~= ls);
    }
}

proof fn lemma_split_join_lines(ls: Seq<Seq<char>>)
    requires
        ls.len() > 0,
        forall|j: int| 0 <= j < ls.len() ==> no_newline(#[trigger] ls[j]),
    ensures
        split_lines(join_lines(ls)) == ls,
    decreases ls.len(),
{
    if ls.len() == 1 {
        assert(no_newline(ls[0]));
        lemma_split_lines_single(ls[0]);
        assert(ls =~= seq![ls[0]]);
    } else {
        let d = ls.drop_last();
        assert forall|j: int| 0 <= j < d.len() implies no_newline(#[trigger] d[j]) by {
            assert(d[j] == ls[j]);
        }
        lemma_split_join_lines(d);
        lemma_split_lines_join(join_lines(d), ls.last());
        assert(no_newline(ls[ls.len() - 1]));
        lemma_split_lines_single(ls.last());
        assert(d + seq![ls.last()] =~= ls);
    }
}

/// Formatting formatted code changes nothing: the formatter is idempotent.
pub proof fn law_format_idempotent(code: Seq<char>)
    ensures
        formatted_code(formatted_code(code)) == formatted_code(code),
{
    let ls = split_lines(code);
    lemma_split_lines_no_newline(code);
    lemma_formatted_lines_formatted(ls);
    let f = formatted_lines(ls);
    if f.len() == 0 {
        let e = Seq::<char>::empty();
        assert(join_lines(f) == e);
        assert(split_lines(e) =~= seq![e]);
        assert(trim(e) =~= e);
        let one = seq![e];
        let none = Seq::<Seq<char>>::empty();
        assert(one.drop_last() =~= none);
        assert(one.last() == e);
        assert(formatted_lines(none) == none);
        assert(formatted_lines(one) == formatted_lines(one.drop_last()));
        assert(formatted_lines(one) =~= none);
    } else {
        assert forall|j: int| 0 <= j < f.len() implies no_newline(#[trigger] f[j]) by {
            assert(formatted_line(f[j]));
        }
        lemma_split_join_lines(f);
        lemma_formatted_lines_fixed(f);
    }
}

/// Closing a script just created, under a name no open script had, gives
/// back the open scripts as they were.
pub proof fn law_close_undoes_create(before: Map<Seq<char>, ScriptEditor>, name: Seq<char>, created: ScriptEditor)
    requires
        !before.contains_key(name),
    ensures
        before.insert(name, created).remove(name) == before,
{
    assert(before.insert(name, created).remove(name) =~= before);
}

/// `f` is `e` with its code formatted, and marked unsaved.
pub open spec fn code_formatted(e: ScriptEditor, f: ScriptEditor) -> bool {
    &&& f.name == e.name
    &&& f.code@ == formatted_code(e.code@)
    &&& f.file_path == e.file_path
    &&& f.is_dirty
    &&& f.cursor_position == e.cursor_position
    &&& f.auto_save == e.auto_save
    &&& f.syntax_errors == e.syntax_errors
}

/// The documentation entry of the trimmed line `t`, numbered `n`: comments,
/// function bindings and structure definitions are listed.
pub open spec fn doc_entry(n: nat, t: Seq<char>) -> Seq<char> {
    if starts_with(t, "--"@) {
        "Line "@ + decimal(n) + ": "@ + t + "\n"@
    } else if starts_with(t, "let"@) && contains_text(t, "=>"@) {
        "Function found at line "@ + decimal(n) + ": "@ + t + "\n"@
    } else if starts_with(t, "struct"@) {
        "Struct found at line "@ + decimal(n) + ": "@ + t + "\n"@
    } else {
        Seq::empty()
    }
}

/// The entries of the lines, numbered from 1.
pub open spec fn doc_entries(ls: Seq<Seq<char>>) -> Seq<char>
    decreases ls.len(),
{
    if ls.len() == 0 {
        Seq::empty()
    } else {
        doc_entries(ls.drop_last()) + doc_entry(ls.len() as nat, trim(ls.last()))
    }
}

/// The documentation generated for the script `name` holding `code`.
pub open spec fn documentation_of(name: Seq<char>, code: Seq<char>) -> Seq<char> {
    "# Documentation for "@ + name + "\n\n"@ + doc_entries(split_lines(code))
}

/// The formatted text of `code`.
fn format_text(code: &str) -> (r: Vec<char>)
    ensures
        r@ == formatted_code(code@),
{
    let cs = chars_of(code);
    let lines = split_lines_chars(&cs);
    let ghost ls = split_lines(code@);
    let mut out: Vec<char> = Vec::new();
    let mut any = false;
    for i in 0..lines.len()
        invariant
            lines@.len() == ls.len(),
            ls == split_lines(code@),
            forall|k: int| 0 <= k < lines@.len() ==> (#[trigger] lines@[k])@ == ls[k],
            out@ == join_lines(formatted_lines(ls.take(i as int))),
            any == (formatted_lines(ls.take(i as int)).len() > 0),
    {
        let t = trim_chars(&lines[i]);
        let ghost p = formatted_lines(ls.take(i as int));
        proof {
            assert(ls.take(i + 1).drop_last() =~= ls.take(i as int));
            assert(ls.take(i + 1).last() == lines@[i as int]@);
        }
        if t.len() > 0 {
            if any {
                out.push('\n');
            }
            if t[0] == '}' || t[t.len() - 1] == '{' {
                push_chars(&mut out, t.as_slice());
            } else {
                push_str_chars(&mut out, "    ");
                push_chars(&mut out, t.as_slice());
            }
            any = true;
            proof {
                let x = format_line(t@);
                assert(p.push(x).drop_last() =~= p);
                if p.len() == 0 {
                    assert(join_lines(p.push(x)) == x);
                } else {
                    assert(join_lines(p.push(x)) == join_lines(p) + seq!['\n'] + x);
                }
                assert(out@ =~= join_lines(p.push(x)));
            }
        }
    }
    proof {
        assert(ls.take(lines@.len() as int) =~= ls);
    }
    out
}

/// Appends one documentation entry: `kind`, the line number, `: `, the line.
fn push_entry(out: &mut Vec<char>, kind: &str, n: usize, t: &Vec<char>)
    ensures
        final(out)@ == old(out)@ + (kind@ + decimal(n as nat) + ": "@ + t@ + "\n"@),
{
    let ghost o = out@;
    push_str_chars(out, kind);
    push_decimal(out, n as u64);
    push_str_chars(out, ": ");
    push_chars(out, t.as_slice());
    push_str_chars(out, "\n");
    assert(out@ =~= o + (kind@ + decimal(n as nat) + ": "@ + t@ + "\n"@));
}

/// The documentation of the script `name` holding `code`.
fn documentation_text(name: &str, code: &str) -> (r: Vec<char>)
    ensures
        r@ == documentation_of(name@, code@),
{
    let mut out: Vec<char> = Vec::new();
    push_str_chars(&mut out, "# Documentation for ");
    push_str_chars(&mut out, name);
    push_str_chars(&mut out, "\n\n");
    let ghost head = "# Documentation for "@ + name@ + "\n\n"@;
    let cs = chars_of(code);
    let lines = split_lines_chars(&cs);
    let ghost ls = split_lines(code@);
    let dash = chars_of("--");
    let let_kw = chars_of("let");
    let arrow = chars_of("=>");
    let struct_kw = chars_of("struct");
    proof {
        assert(out@ =~= head + doc_entries(ls.take(0)));
    }
    for i in 0..lines.len()
        invariant
            lines@.len() == ls.len(),
            ls == split_lines(code@),
            forall|k: int| 0 <= k < lines@.len() ==> (#[trigger] lines@[k])@ == ls[k],
            head == "# Documentation for "@ + name@ + "\n\n"@,
            dash@ == "--"@,
            let_kw@ == "let"@,
            arrow@ == "=>"@,
            struct_kw@ == "struct"@,
            out@ == head + doc_entries(ls.take(i as int)),
    {
        let t = trim_chars(&lines[i]);
        let ghost before = out@;
        proof {
            assert(ls.take(i + 1).drop_last() =~= ls.take(i as int));
            assert(ls.take(i + 1).last() == lines@[i as int]@);
        }
        if starts_with_chars(&t, dash.as_slice()) {
            push_entry(&mut out, "Line ", i + 1, &t);
        } else if starts_with_chars(&t, let_kw.as_slice()) && contains_chars(&t, &arrow) {
            push_entry(&mut out, "Function found at line ", i + 1, &t);
        } else if starts_with_chars(&t, struct_kw.as_slice()) {
            push_entry(&mut out, "Struct found at line ", i + 1, &t);
        }
        proof {
            assert(out@ =~= before + doc_entry((i + 1) as nat, t@));
            assert(out@ =~= head + doc_entries(ls.take(i + 1)));
        }
    }
    proof {
        assert(ls.take(lines@.len() as int) =~= ls);
    }
    out
}

/// `a` followed by `b`.
fn concat_str(a: &str, b: &str) -> (r: String)
    ensures
        r@ == a@ + b@,
{
    let mut v: Vec<char> = Vec::new();
    push_str_chars(&mut v, a);
    push_str_chars(&mut v, b);
    string_from_chars(v.as_slice())
}

/// A script that was just created or opened.
fn make_script(name: String, code: String, file_path: String, is_dirty: bool) -> (e: ScriptEditor)
    ensures
        e.name == name,
        e.code == code,
        e.file_path == file_path,
        e.is_dirty == is_dirty,
        e.cursor_position == 0,
        e.syntax_errors@.len() == 0,
        !e.auto_save,
{
    ScriptEditor { name, code, file_path, is_dirty, cursor_position: 0, syntax_errors: Vec::new(), auto_save: false }
}

proof fn lemma_distinct_push(s: Seq<ScriptEditor>, e: ScriptEditor)
    requires
        names_distinct(s),
        !script_map(s).contains_key(e.name@),
    ensures
        names_distinct(s.push(e)),
        script_map(s.push(e)) == script_map(s).insert(e.name@, e),
{
    lemma_script_map_keys(s, e.name@);
    let t = s.push(e);
    assert(t.drop_last() =~= s);
    assert forall|a: int, b: int| 0 <= a < b < t.len() implies (#[trigger] t[a]).name@ != (#[trigger] t[b]).name@ by {
        assert(t[a] == s[a]);
        if b < s.len() {
            assert(t[b] == s[b]);
        }
    }
}

/// The index of the script named `name`, if there is one.
fn find_script(scripts: &Vec<ScriptEditor>, name: &str) -> (r: Option<usize>)
    ensures
        match r {
            Some(i) => i < scripts@.len() && scripts@[i as int].name@ == name@,
            None => !script_map(scripts@).contains_key(name@),
        },
{
    let target = chars_of(name);
    let mut i: usize = 0;
    while i < scripts.len()
        invariant
            i <= scripts@.len(),
            target@ == name@,
            forall|k: int| 0 <= k < i ==> (#[trigger] scripts@[k]).name@ != name@,
        decreases scripts.len() - i,
    {
        let cand = chars_of(scripts[i].name.as_str());
        if same_chars(cand.as_slice(), target.as_slice()) {
            return Some(i);
        }
        i = i + 1;
    }
    proof {
        lemma_script_map_keys(scripts@, name@);
    }
    None
}

/// The panel of the scripts being edited: the scripts by name, the one
/// shown, and the program of the last run.
pub struct ScriptingPanel {
    scripts: Vec<ScriptEditor>,
    active_script: Option<String>,
    last_executed_script: Option<Program>,
}

/// Whether two texts are equal.
fn same_text(a: &str, b: &str) -> (r: bool)
    ensures
        r == (a@ == b@),
{
    let x = chars_of(a);
    let y = chars_of(b);
    same_chars(x.as_slice(), y.as_slice())
}

/// A script just opened from a file: named `name`, holding `code`, from
/// `path`, saved, without errors.
pub open spec fn opened_script(e: ScriptEditor, name: Seq<char>, code: Seq<char>, path: Seq<char>) -> bool {
    &&& e.name@ == name
    &&& e.code@ == code
    &&& e.file_path@ == path
    &&& !e.is_dirty
    &&& e.cursor_position == 0
    &&& e.syntax_errors@.len() == 0
    &&& !e.auto_save
}

/// The characters of an optional string.
pub open spec fn opt_chars(s: Option<String>) -> Option<Seq<char>> {
    match s {
        Some(t) => Some(t@),
        None => None,
    }
}

impl ScriptingPanel {
    /// The open scripts, by name.
    pub closed spec fn scripts_view(&self) -> Map<Seq<char>, ScriptEditor> {
        script_map(self.scripts@)
    }

    /// The name of the script shown, if any.
    pub closed spec fn active_view(&self) -> Option<Seq<char>> {
        opt_chars(self.active_script)
    }

    /// The program of the last successful run that was not taken yet.
    pub closed spec fn last_run_view(&self) -> Option<SpecProgram> {
        match self.last_executed_script {
            Some(p) => Some(view_program(p)),
            None => None,
        }
    }

    /// No two scripts share a name, and the script shown is open.
    pub closed spec fn wf(&self) -> bool {
        &&& names_distinct(self.scripts@)
        &&& (self.active_script matches Some(a) ==> self.scripts_view().contains_key(a@))
    }

    /// A panel with one script, `Main`, holding the default template, shown.
    pub fn new() -> (p: Self)
        ensures
            p.wf(),
            p.scripts_view().dom() == set!["Main"@],
            fresh_script(p.scripts_view()["Main"@], "Main"@, default_script_template(), "Main.matrix"@),
            p.active_view() == Some("Main"@),
            p.last_run_view() is None,
    {
        let mut p = ScriptingPanel {
            scripts: Vec::new(),
            active_script: None,
            last_executed_script: None,
        };
        proof {
            assert(p.scripts@ =~= Seq::<ScriptEditor>::empty());
            assert(script_map(p.scripts@) =~= Map::empty());
        }
        p.create_new_script("Main".to_owned(), get_default_script_template());
        p.active_script = Some("Main".to_owned());
        proof {
            assert(p.scripts_view().dom() =~= set!["Main"@]);
            reveal_strlit("Main");
            reveal_strlit(".matrix");
            reveal_strlit("Main.matrix");
            assert("Main"@ + ".matrix"@ =~= "Main.matrix"@);
        }
        p
    }

    /// Opens a new script `name` holding `template`, saved to
    /// `<name>.matrix`; a script of that name is replaced.
    pub fn create_new_script(&mut self, name: String, template: String)
        requires
            old(self).wf(),
        ensures
            final(self).wf(),
            final(self).scripts_view() == old(self).scripts_view().insert(name@, final(self).scripts_view()[name@]),
            fresh_script(final(self).scripts_view()[name@], name@, template@, name@ + ".matrix"@),
            final(self).active_view() == old(self).active_view(),
            final(self).last_run_view() == old(self).last_run_view(),
    {
        let path = concat_str(name.as_str(), ".matrix");
        let e = make_script(name, template, path, true);
        self.put_script(e);
    }

    /// Opens `e`, in place of the script of its name if there is one.
    fn put_script(&mut self, e: ScriptEditor)
        requires
            old(self).wf(),
        ensures
            final(self).wf(),
            final(self).scripts_view() == old(self).scripts_view().insert(e.name@, e),
            final(self).active_script == old(self).active_script,
            final(self).last_executed_script == old(self).last_executed_script,
    {
        let found = find_script(&self.scripts, e.name.as_str());
        let ghost s = self.scripts@;
        let ghost ge = e;
        match found {
            Some(i) => {
                self.scripts.remove(i);
                self.scripts.insert(i, e);
                proof {
                    assert(self.scripts@ =~= s.update(i as int, ge));
                    lemma_distinct_update(s, i as int, ge);
                }
            },
            None => {
                self.scripts.push(e);
                proof {
                    lemma_distinct_push(s, ge);
                }
            },
        }
    }

    /// Closes the script `name`. When it was shown, another open script is
    /// shown in its place, or none when no script is left.
    pub fn close_script(&mut self, name: &str)
        requires
            old(self).wf(),
        ensures
            final(self).wf(),
            final(self).scripts_view() == old(self).scripts_view().remove(name@),
            old(self).active_view() != Some(name@) ==> final(self).active_view() == old(self).active_view(),
            old(self).active_view() == Some(name@) ==> (final(self).active_view() is None
                <==> final(self).scripts_view() == Map::<Seq<char>, ScriptEditor>::empty()),
            final(self).last_run_view() == old(self).last_run_view(),
    {
        let ghost s = self.scripts@;
        let found = find_script(&self.scripts, name);
        if let Some(i) = found {
            self.scripts.remove(i);
            proof {
                assert(self.scripts@ =~= s.remove(i as int));
                lemma_distinct_remove(s, i as int);
            }
        } else {
            proof {
                assert(script_map(s).remove(name@) =~= script_map(s));
            }
        }
        let was_active = match &self.active_script {
            Some(a) => same_text(a.as_str(), name),
            None => false,
        };
        if was_active {
            if self.scripts.len() > 0 {
                let first = self.scripts[0].name.clone();
                self.active_script = Some(first);
                proof {
                    lemma_script_map_keys(self.scripts@, first@);
                    assert(self.scripts@[0].name@ == first@);
                    assert(!Map::<Seq<char>, ScriptEditor>::empty().contains_key(first@));
                }
            } else {
                self.active_script = None;
                proof {
                    assert(script_map(self.scripts@) =~= Map::empty());
                }
            }
        }
    }

    /// Shows the script `name` when it is open; answers whether it is.
    pub fn set_active_script(&mut self, name: &str) -> (r: bool)
        requires
            old(self).wf(),
        ensures
            final(self).wf(),
            r == old(self).scripts_view().contains_key(name@),
            final(self).active_view() == (if r { Some(name@) } else { old(self).active_view() }),
            final(self).scripts_view() == old(self).scripts_view(),
            final(self).last_run_view() == old(self).last_run_view(),
    {
        match find_script(&self.scripts, name) {
            Some(i) => {
                proof {
                    lemma_script_map_keys(self.scripts@, name@);
                }
                self.active_script = Some(name.to_owned());
                true
            },
            None => false,
        }
    }

    /// The name of the script shown.
    pub fn active_script(&self) -> (r: Option<String>)
        ensures
            opt_chars(r) == self.active_view(),
    {
        match &self.active_script {
            Some(a) => Some(a.clone()),
            None => None,
        }
    }

    /// The open script `name`.
    pub fn script(&self, name: &str) -> (r: Option<&ScriptEditor>)
        requires
            self.wf(),
        ensures
            match r {
                Some(e) => self.scripts_view().contains_key(name@) && self.scripts_view()[name@] == *e,
                None => !self.scripts_view().contains_key(name@),
            },
    {
        match find_script(&self.scripts, name) {
            Some(i) => {
                proof {
                    lemma_script_map_at(self.scripts@, i as int);
                }
                Some(&self.scripts[i])
            },
            None => None,
        }
    }

    /// The names of the open scripts, each once.
    pub fn script_names(&self) -> (r: Vec<String>)
        requires
            self.wf(),
        ensures
            forall|i: int| 0 <= i < r@.len() ==> self.scripts_view().contains_key((#[trigger] r@[i])@),
            forall|n: Seq<char>| #[trigger] self.scripts_view().contains_key(n) ==> exists|i: int| 0 <= i < r@.len() && (#[trigger] r@[i])@ == n,
            forall|i: int, j: int| 0 <= i < j < r@.len() ==> (#[trigger] r@[i])@ != (#[trigger] r@[j])@,
    {
        let mut r: Vec<String> = Vec::new();
        for k in 0..self.scripts.len()
            invariant
                r@.len() == k,
                forall|m: int| 0 <= m < k ==> (#[trigger] r@[m])@ == self.scripts@[m].name@,
        {
            r.push(self.scripts[k].name.clone());
        }
        proof {
            assert forall|i: int| 0 <= i < r@.len() implies self.scripts_view().contains_key((#[trigger] r@[i])@) by {
                lemma_script_map_at(self.scripts@, i);
            }
            assert forall|n: Seq<char>| #[trigger] self.scripts_view().contains_key(n) implies exists|i: int| 0 <= i < r@.len() && (#[trigger] r@[i])@ == n by {
                lemma_script_map_keys(self.scripts@, n);
                let i = choose|i: int| 0 <= i < self.scripts@.len() && (#[trigger] self.scripts@[i]).name@ == n;
                assert(r@[i]@ == n);
            }
            assert forall|i: int, j: int| 0 <= i < j < r@.len() implies (#[trigger] r@[i])@ != (#[trigger] r@[j])@ by {
                assert(self.scripts@[i].name@ != self.scripts@[j].name@);
            }
        }
        r
    }

    /// Opens a script read from `file_path`, saved as it is, and shows it; a
    /// script of that name is replaced.
    pub fn open_script(&mut self, name: String, code: String, file_path: String)
        requires
            old(self).wf(),
        ensures
            final(self).wf(),
            final(self).scripts_view() == old(self).scripts_view().insert(name@, final(self).scripts_view()[name@]),
            opened_script(final(self).scripts_view()[name@], name@, code@, file_path@),
            final(self).active_view() == Some(name@),
            final(self).last_run_view() == old(self).last_run_view(),
    {
        let active = name.clone();
        let e = make_script(name, code, file_path, false);
        self.put_script(e);
        self.active_script = Some(active);
    }

    /// Writes the editor's state back to the script `name`: its code, whether
    /// it saves itself, whether it has unsaved changes, and where the cursor
    /// is; answers whether the script is open.
    pub fn apply_editor_changes(
        &mut self,
        name: &str,
        code: String,
        auto_save: bool,
        is_dirty: bool,
        cursor_position: usize,
    ) -> (r: bool)
        requires
            old(self).wf(),
        ensures
            final(self).wf(),
            r == old(self).scripts_view().contains_key(name@),
            r ==> final(self).scripts_view() == old(self).scripts_view().insert(name@, ScriptEditor {
                code,
                auto_save,
                is_dirty,
                cursor_position,
                ..old(self).scripts_view()[name@]
            }),
            !r ==> final(self).scripts_view() == old(self).scripts_view(),
            final(self).active_view() == old(self).active_view(),
            final(self).last_run_view() == old(self).last_run_view(),
    {
        match find_script(&self.scripts, name) {
            Some(i) => {
                let ghost s = self.scripts@;
                proof {
                    lemma_script_map_at(s, i as int);
                }
                let mut e = self.scripts.remove(i);
                e.code = code;
                e.auto_save = auto_save;
                e.is_dirty = is_dirty;
                e.cursor_position = cursor_position;
                let ghost ge = e;
                self.scripts.insert(i, e);
                proof {
                    assert(self.scripts@ =~= s.update(i as int, ge));
                    lemma_distinct_update(s, i as int, ge);
                }
                true
            },
            None => false,
        }
    }

    /// Checks the syntax of the script `name`: its list of errors becomes
    /// that of parsing its code. Answers whether the script is open.
    pub fn check_syntax(&mut self, name: &str) -> (r: bool)
        requires
            old(self).wf(),
            old(self).scripts_view().contains_key(name@) ==> old(self).scripts_view()[name@].code@.len() < usize::MAX,
        ensures
            final(self).wf(),
            r == old(self).scripts_view().contains_key(name@),
            r ==> final(self).scripts_view() == old(self).scripts_view().insert(name@, final(self).scripts_view()[name@]),
            r ==> syntax_checked(old(self).scripts_view()[name@], final(self).scripts_view()[name@]),
            !r ==> final(self).scripts_view() == old(self).scripts_view(),
            final(self).active_view() == old(self).active_view(),
            final(self).last_run_view() == old(self).last_run_view(),
    {
        match find_script(&self.scripts, name) {
            Some(i) => {
                let ghost s = self.scripts@;
                proof {
                    lemma_script_map_at(s, i as int);
                }
                let mut e = self.scripts.remove(i);
                let mut errors: Vec<SyntaxError> = Vec::new();
                match parse_source(e.code.as_str()) {
                    Ok(_) => {},
                    Err(err) => {
                        errors.push(
                            SyntaxError {
                                line: err.line,
                                column: 1,
                                message: err.message(),
                                error_type: ErrorType::Parser,
                            },
                        );
                    },
                }
                e.syntax_errors = errors;
                let ghost ge = e;
                self.scripts.insert(i, e);
                proof {
                    assert(self.scripts@ =~= s.update(i as int, ge));
                    lemma_distinct_update(s, i as int, ge);
                }
                true
            },
            None => false,
        }
    }

    /// Formats the code of the script `name` and marks it unsaved; answers
    /// whether the script is open.
    pub fn format_code(&mut self, name: &str) -> (r: bool)
        requires
            old(self).wf(),
        ensures
            final(self).wf(),
            r == old(self).scripts_view().contains_key(name@),
            r ==> final(self).scripts_view() == old(self).scripts_view().insert(name@, final(self).scripts_view()[name@]),
            r ==> code_formatted(old(self).scripts_view()[name@], final(self).scripts_view()[name@]),
            !r ==> final(self).scripts_view() == old(self).scripts_view(),
            final(self).active_view() == old(self).active_view(),
            final(self).last_run_view() == old(self).last_run_view(),
    {
        match find_script(&self.scripts, name) {
            Some(i) => {
                let ghost s = self.scripts@;
                proof {
                    lemma_script_map_at(s, i as int);
                }
                let mut e = self.scripts.remove(i);
                let formatted = format_text(e.code.as_str());
                e.code = string_from_chars(formatted.as_slice());
                e.is_dirty = true;
                let ghost ge = e;
                self.scripts.insert(i, e);
                proof {
                    assert(self.scripts@ =~= s.update(i as int, ge));
                    lemma_distinct_update(s, i as int, ge);
                }
                true
            },
            None => false,
        }
    }

    /// Generates the documentation of the script `name` as a new script
    /// `<name>_docs`, saved to `<name>_docs.md`, and shows it; answers
    /// whether the script is open.
    pub fn generate_documentation(&mut self, name: &str) -> (r: bool)
        requires
            old(self).wf(),
        ensures
            final(self).wf(),
            r == old(self).scripts_view().contains_key(name@),
            r ==> final(self).scripts_view() == old(self).scripts_view().insert(
                name@ + "_docs"@,
                final(self).scripts_view()[name@ + "_docs"@],
            ),
            r ==> fresh_script(
                final(self).scripts_view()[name@ + "_docs"@],
                name@ + "_docs"@,
                documentation_of(name@, old(self).scripts_view()[name@].code@),
                name@ + "_docs"@ + ".md"@,
            ),
            r ==> final(self).active_view() == Some(name@ + "_docs"@),
            !r ==> final(self).scripts_view() == old(self).scripts_view(),
            !r ==> final(self).active_view() == old(self).active_view(),
            final(self).last_run_view() == old(self).last_run_view(),
    {
        match find_script(&self.scripts, name) {
            Some(i) => {
                proof {
                    lemma_script_map_at(self.scripts@, i as int);
                }
                let docs = documentation_text(name, self.scripts[i].code.as_str());
                let doc_name = concat_str(name, "_docs");
                let path = concat_str(doc_name.as_str(), ".md");
                let active = doc_name.clone();
                let e = make_script(doc_name, string_from_chars(docs.as_slice()), path, true);
                self.put_script(e);
                self.active_script = Some(active);
                true
            },
            None => false,
        }
    }

    /// Parses the script shown. On success its program becomes the last
    /// run's; the parse error is returned otherwise. `None` when no script
    /// is shown.
    pub fn run_active_script(&mut self) -> (r: Option<Result<(), ParseError>>)
        requires
            old(self).wf(),
            old(self).active_view() matches Some(a) ==> old(self).scripts_view()[a].code@.len() < usize::MAX,
        ensures
            final(self).wf(),
            final(self).scripts_view() == old(self).scripts_view(),
            final(self).active_view() == old(self).active_view(),
            match old(self).active_view() {
                None => r is None && final(self).last_run_view() == old(self).last_run_view(),
                Some(a) => match program_of_source(old(self).scripts_view()[a].code@) {
                    Ok(p) => r == Some(Ok::<(), ParseError>(())) && final(self).last_run_view() == Some(p),
                    Err(e) => r == Some(Err::<(), ParseError>(e)) && final(self).last_run_view()
                        == old(self).last_run_view(),
                },
            },
    {
        let active = match &self.active_script {
            Some(a) => a.clone(),
            None => {
                return None;
            },
        };
        match find_script(&self.scripts, active.as_str()) {
            Some(i) => {
                proof {
                    lemma_script_map_at(self.scripts@, i as int);
                }
                match parse_source(self.scripts[i].code.as_str()) {
                    Ok(program) => {
                        self.last_executed_script = Some(program);
                        Some(Ok(()))
                    },
                    Err(e) => Some(Err(e)),
                }
            },
            None => None,
        }
    }

    /// Takes the program of the last run, leaving none.
    pub fn get_last_executed_script(&mut self) -> (r: Option<Program>)
        requires
            old(self).wf(),
        ensures
            final(self).wf(),
            match r {
                Some(p) => old(self).last_run_view() == Some(view_program(p)),
                None => old(self).last_run_view() is None,
            },
            final(self).last_run_view() is None,
            final(self).scripts_view() == old(self).scripts_view(),
            final(self).active_view() == old(self).active_view(),
    {
        self.last_executed_script.take()
    }

    /// The program of the last run, left in place.
    pub fn last_executed_script(&self) -> (r: Option<&Program>)
        ensures
            match r {
                Some(p) => self.last_run_view() == Some(view_program(*p)),
                None => self.last_run_view() is None,
            },
    {
        match &self.last_executed_script {
            Some(p) => Some(p),
            None => None,
        }
    }

    /// Marks the script `name` as saved; answers whether it is open.
    pub fn mark_saved(&mut self, name: &str) -> (r: bool)
        requires
            old(self).wf(),
        ensures
            final(self).wf(),
            r == old(self).scripts_view().contains_key(name@),
            r ==> final(self).scripts_view() == old(self).scripts_view().insert(name@, ScriptEditor {
                is_dirty: false,
                ..old(self).scripts_view()[name@]
            }),
            !r ==> final(self).scripts_view() == old(self).scripts_view(),
            final(self).active_view() == old(self).active_view(),
            final(self).last_run_view() == old(self).last_run_view(),
    {
        match find_script(&self.scripts, name) {
            Some(i) => {
                let ghost s = self.scripts@;
                proof {
                    lemma_script_map_at(s, i as int);
                }
                let mut e = self.scripts.remove(i);
                e.is_dirty = false;
                let ghost ge = e;
                self.scripts.insert(i, e);
                proof {
                    assert(self.scripts@ =~= s.update(i as int, ge));
                    lemma_distinct_update(s, i as int, ge);
                }
                true
            },
            None => false,
        }
    }
}

impl Default for ScriptingPanel {
    /// The panel `new` makes.
    fn default() -> (p: Self)
        ensures
            p.wf(),
            p.scripts_view().dom() == set!["Main"@],
            fresh_script(p.scripts_view()["Main"@], "Main"@, default_script_template(), "Main.matrix"@),
            p.active_view() == Some("Main"@),
            p.last_run_view() is None,
    {
        Self::new()
    }
}

} // verus!
