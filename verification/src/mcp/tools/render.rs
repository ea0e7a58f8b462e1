//! Setting formulas.
//!
//! A formula in LaTeX is turned into a Typst document, which is then drawn as a
//! picture. Here stands what becomes of the formula's text.

use vstd::prelude::*;
use crate::text;

verus! {

/// Whether a character stands for itself in a formula: a letter, a digit, a space or
/// a sign that means nothing to LaTeX.
pub open spec fn is_plain_char(c: char) -> bool {
    ||| 'a' <= c <= 'z'
    ||| 'A' <= c <= 'Z'
    ||| text::is_digit(c)
    ||| c == ' '
    ||| c == '+'
    ||| c == '-'
    ||| c == '='
    ||| c == '<'
    ||| c == '>'
    ||| c == '.'
    ||| c == ':'
    ||| c == '!'
    ||| c == '?'
}

/// Whether a formula is made of characters that stand for themselves.
pub open spec fn is_plain(latex: Seq<char>) -> bool {
    forall|i: int| 0 <= i < latex.len() ==> is_plain_char(#[trigger] latex[i])
}

/// A formula with a space behind each character that is no space.
pub open spec fn spaced(latex: Seq<char>) -> Seq<char>
    decreases latex.len(),
{
    if latex.len() == 0 {
        Seq::empty()
    } else if latex.last() == ' ' {
        spaced(latex.drop_last()).push(' ')
    } else {
        spaced(latex.drop_last()).push(latex.last()).push(' ')
    }
}

/// How often one part of a formula may be set inside or upon another, at most, for the
/// formula to be converted here.
pub const MAX_NESTING: usize = 256;

/// Whether a character may set one part of a formula inside or upon another: a command
/// may, too.
pub open spec fn nests(c: char) -> bool {
    c == '{' || c == '$' || c == '^' || c == '_' || c == '\'' || c == '\\'
}

/// How many characters of a formula may set one part of it inside or upon another.
pub open spec fn nesting(latex: Seq<char>) -> nat
    decreases latex.len(),
{
    if latex.len() == 0 {
        0
    } else if nests(latex.last()) {
        nesting(latex.drop_last()) + 1
    } else {
        nesting(latex.drop_last())
    }
}

/// Whether a character can stand in the name of a command.
pub open spec fn is_name_char(c: char) -> bool {
    'a' <= c <= 'z' || 'A' <= c <= 'Z' || c == '@'
}

/// The name that a text starts with, which may be empty.
pub open spec fn leading_name(s: Seq<char>) -> Seq<char>
    decreases s.len(),
{
    if s.len() > 0 && is_name_char(s[0]) {
        seq![s[0]] + leading_name(s.skip(1))
    } else {
        Seq::empty()
    }
}

/// Whether the conversion may fail to come back from a command: it takes its argument
/// apart without looking, it takes what stands before it or all that follows, or it
/// defines other commands.
pub open spec fn is_risky(name: Seq<char>) -> bool {
    ||| name == "label"@
    ||| name == "includegraphics"@
    ||| name == "over"@
    ||| name == "atop"@
    ||| name == "choose"@
    ||| name == "brace"@
    ||| name == "brack"@
    ||| name == "limits"@
    ||| name == "nolimits"@
    ||| name == "displaystyle"@
    ||| name == "textstyle"@
    ||| name == "scriptstyle"@
    ||| name == "scriptscriptstyle"@
    ||| name == "rm"@
    ||| name == "bf"@
    ||| name == "it"@
    ||| name == "sf"@
    ||| name == "tt"@
    ||| name == "cal"@
    ||| name == "frak"@
    ||| name == "color"@
    ||| name == "newcommand"@
    ||| name == "renewcommand"@
    ||| name == "providecommand"@
    ||| name == "DeclareRobustCommand"@
    ||| name == "newenvironment"@
    ||| name == "renewenvironment"@
}

/// Whether the conversion may fail to come back from an environment.
pub open spec fn is_risky_environment(name: Seq<char>) -> bool {
    name == "tabular"@ || name == "table"@ || name == "figure"@
}

/// Whether what follows the word `begin` or `end` is the name of an environment in
/// braces, directly and without a gap, and of none that is risky.
pub open spec fn environment_allowed(rest: Seq<char>) -> bool {
    let name = leading_name(rest.skip(1));
    let end = if rest.len() > name.len() + 1 && rest[name.len() as int + 1] == '*' {
        name.len() + 2
    } else {
        name.len() + 1
    };
    &&& rest.len() > end
    &&& rest[0] == '{'
    &&& name.len() > 0
    &&& rest[end as int] == '}'
    &&& !is_risky_environment(name)
}

/// Whether the command behind a backslash is not risky. A single sign behind it is a
/// command that never is.
pub open spec fn command_allowed(rest: Seq<char>) -> bool {
    let name = leading_name(rest);
    if name == "begin"@ || name == "end"@ {
        environment_allowed(rest.skip(name.len() as int))
    } else {
        !is_risky(name)
    }
}

/// Whether no command of a formula is risky. Two backslashes are a line break.
pub open spec fn commands_allowed(latex: Seq<char>) -> bool
    decreases latex.len(),
{
    if latex.len() == 0 {
        true
    } else if latex[0] != '\\' || latex.len() == 1 {
        commands_allowed(latex.skip(1))
    } else if latex[1] == '\\' {
        commands_allowed(latex.skip(2))
    } else {
        command_allowed(latex.skip(1)) && commands_allowed(latex.skip(1))
    }
}

/// Whether a formula has no risky command and is not nested too deeply.
pub open spec fn is_simple(latex: Seq<char>) -> bool {
    commands_allowed(latex) && nesting(latex) <= MAX_NESTING
}

proof fn lemma_no_commands(latex: Seq<char>)
    requires
        forall|i: int| 0 <= i < latex.len() ==> latex[i] != '\\',
    ensures
        commands_allowed(latex),
    decreases latex.len(),
{
    if latex.len() > 0 {
        assert(forall|i: int| 0 <= i < latex.skip(1).len() ==> latex.skip(1)[i] == latex[i + 1]);
        lemma_no_commands(latex.skip(1));
    }
}

proof fn lemma_plain_nesting(latex: Seq<char>)
    requires
        is_plain(latex),
    ensures
        nesting(latex) == 0,
    decreases latex.len(),
{
    if latex.len() > 0 {
        assert(is_plain_char(latex[latex.len() - 1]));
        lemma_plain_nesting(latex.drop_last());
    }
}

proof fn lemma_plain_is_simple(latex: Seq<char>)
    requires
        is_plain(latex),
    ensures
        is_simple(latex),
{
    assert forall|i: int| 0 <= i < latex.len() implies latex[i] != '\\' by {
        assert(is_plain_char(latex[i]));
    }
    lemma_no_commands(latex);
    lemma_plain_nesting(latex);
}

/// What `mitex::convert_math` gives for a formula, with its own list of commands.
pub uninterp spec fn mitex_math(latex: Seq<char>) -> Result<Seq<char>, Seq<char>>;

/// `mitex::convert_math` with its own list of commands. What it gives depends on the
/// formula alone. On a formula of plain characters it breaks the words up: each
/// character is written with a space behind it, and spaces are kept. Some formulas are
/// left out. It panics on `\label`, `\includegraphics` and the environments `tabular`,
/// `table` and `figure` where their arguments are not as they should be, on commands
/// that take what stands before them where that was set already, and where a comment
/// and wide spaces stand between `\begin` and its brace; new commands can stand for
/// themselves, and then it does not come back. It calls itself for each level of
/// nesting, and for each command that takes all that follows.
#[verifier::external_body]
fn convert_simple(latex: &str) -> (r: Result<String, String>)
    requires
        is_simple(latex@),
    ensures
        text_result(r) == mitex_math(latex@),
        is_plain(latex@) ==> r is Ok && text_result(r)->Ok_0 == spaced(latex@),
{
    mitex::convert_math(latex, None)
}

fn name_char(c: char) -> (r: bool)
    ensures
        r == is_name_char(c),
{
    ('a' <= c && c <= 'z') || ('A' <= c && c <= 'Z') || c == '@'
}

/// The name that stands at an index, which may be empty.
fn name_at(chars: &Vec<char>, from: usize) -> (r: String)
    requires
        from <= chars@.len(),
    ensures
        r@ == leading_name(chars@.skip(from as int)),
        from + r@.len() <= chars@.len(),
{
    let ghost whole = leading_name(chars@.skip(from as int));
    let mut out: String = String::new();
    let mut i: usize = from;
    assert(out@ + whole =~= whole);
    while i < chars.len() && name_char(chars[i])
        invariant
            from <= i <= chars@.len(),
            out@.len() == i - from,
            out@ + leading_name(chars@.skip(i as int)) == whole,
        decreases chars@.len() - i,
    {
        let ghost had = out@;
        let c: char = chars[i];
        out.push(c);
        proof {
            let rest = leading_name(chars@.skip(i + 1));
            assert(chars@.skip(i as int).skip(1) =~= chars@.skip(i + 1));
            assert(had.push(c) + rest =~= had + (seq![c] + rest));
        }
        i = i + 1;
    }
    assert(out@ + leading_name(chars@.skip(i as int)) =~= out@);
    out
}

fn risky(name: &str) -> (r: bool)
    ensures
        r == is_risky(name@),
{
    text::str_eq(name, "label") || text::str_eq(name, "includegraphics")
        || text::str_eq(name, "over") || text::str_eq(name, "atop") || text::str_eq(name, "choose")
        || text::str_eq(name, "brace") || text::str_eq(name, "brack")
        || text::str_eq(name, "limits") || text::str_eq(name, "nolimits")
        || text::str_eq(name, "displaystyle") || text::str_eq(name, "textstyle")
        || text::str_eq(name, "scriptstyle") || text::str_eq(name, "scriptscriptstyle")
        || text::str_eq(name, "rm") || text::str_eq(name, "bf") || text::str_eq(name, "it")
        || text::str_eq(name, "sf") || text::str_eq(name, "tt") || text::str_eq(name, "cal")
        || text::str_eq(name, "frak") || text::str_eq(name, "color")
        || text::str_eq(name, "newcommand") || text::str_eq(name, "renewcommand")
        || text::str_eq(name, "providecommand") || text::str_eq(name, "DeclareRobustCommand")
        || text::str_eq(name, "newenvironment") || text::str_eq(name, "renewenvironment")
}

fn environment_at(chars: &Vec<char>, from: usize) -> (r: bool)
    requires
        from <= chars@.len(),
    ensures
        r == environment_allowed(chars@.skip(from as int)),
{
    let ghost rest = chars@.skip(from as int);
    if from >= chars.len() || chars[from] != '{' {
        return false;
    }
    let name: String = name_at(chars, from + 1);
    assert(rest.skip(1) =~= chars@.skip(from + 1));
    let len: usize = text::chars_of(name.as_str()).len();
    let mut end: usize = from + 1 + len;
    if end < chars.len() && chars[end] == '*' {
        end = end + 1;
    }
    let risky: bool = text::str_eq(name.as_str(), "tabular") || text::str_eq(
        name.as_str(),
        "table",
    ) || text::str_eq(name.as_str(), "figure");
    len > 0 && end < chars.len() && chars[end] == '}' && !risky
}

fn command_at(chars: &Vec<char>, from: usize) -> (r: bool)
    requires
        from <= chars@.len(),
    ensures
        r == command_allowed(chars@.skip(from as int)),
{
    let name: String = name_at(chars, from);
    if text::str_eq(name.as_str(), "begin") || text::str_eq(name.as_str(), "end") {
        let len: usize = text::chars_of(name.as_str()).len();
        assert(from + len <= chars.len());
        assert(chars@.skip(from as int).skip(len as int) =~= chars@.skip(from + len));
        return environment_at(chars, from + len);
    }
    !risky(name.as_str())
}

fn commands_at(chars: &Vec<char>) -> (r: bool)
    ensures
        r == commands_allowed(chars@),
{
    let mut i: usize = 0;
    assert(chars@.skip(0) =~= chars@);
    while i < chars.len()
        invariant
            i <= chars@.len(),
            commands_allowed(chars@) == commands_allowed(chars@.skip(i as int)),
        decreases chars@.len() - i,
    {
        let ghost rest = chars@.skip(i as int);
        proof {
            assert(rest.skip(1) =~= chars@.skip(i + 1));
            if i + 2 <= chars@.len() {
                assert(rest.skip(2) =~= chars@.skip(i + 2));
            }
        }
        if chars[i] == '\\' && i + 1 < chars.len() {
            if chars[i + 1] == '\\' {
                i = i + 2;
                continue;
            }
            if !command_at(chars, i + 1) {
                return false;
            }
        }
        i = i + 1;
    }
    true
}

/// Whether a formula has no risky command and is not nested too deeply.
pub fn simple_formula(latex: &str) -> (r: bool)
    ensures
        r == is_simple(latex@),
{
    let chars: Vec<char> = text::chars_of(latex);
    if !commands_at(&chars) {
        return false;
    }
    let mut count: usize = 0;
    let mut i: usize = 0;
    assert(latex@.take(0) =~= Seq::empty());
    while i < chars.len()
        invariant
            chars@ == latex@,
            i <= chars@.len(),
            count <= i,
            count == nesting(latex@.take(i as int)),
        decreases chars@.len() - i,
    {
        let c: char = chars[i];
        proof {
            assert(latex@.take(i + 1).drop_last() =~= latex@.take(i as int));
            assert(latex@.take(i + 1).last() == c);
        }
        if c == '{' || c == '$' || c == '^' || c == '_' || c == '\'' || c == '\\' {
            count = count + 1;
        }
        i = i + 1;
    }
    assert(latex@.take(latex@.len() as int) =~= latex@);
    count <= MAX_NESTING
}

/// The Typst names of what the conversion calls otherwise.
pub open spec fn fixed_up(math: Seq<char>) -> Seq<char> {
    let a = text::replaced(math, "mitexsqrt("@, "sqrt("@);
    let b = text::replaced(a, "pmatrix("@, "mat("@);
    let c = text::replaced(b, "bmatrix("@, "mat(delim: \"[\","@);
    let d = text::replaced(c, "vmatrix("@, "mat(delim: \"|\","@);
    text::replaced(d, "Bmatrix("@, "mat(delim: \"{\","@)
}

/// Replaces the names that the conversion gets wrong.
pub fn fixup_mitex_output(typst_math: &str) -> (r: String)
    ensures
        r@ == fixed_up(typst_math@),
{
    proof {
        reveal_strlit("mitexsqrt(");
        reveal_strlit("pmatrix(");
        reveal_strlit("bmatrix(");
        reveal_strlit("vmatrix(");
        reveal_strlit("Bmatrix(");
    }
    let a: String = text::replace(typst_math, "mitexsqrt(", "sqrt(");
    let b: String = text::replace(a.as_str(), "pmatrix(", "mat(");
    let c: String = text::replace(b.as_str(), "bmatrix(", "mat(delim: \"[\",");
    let d: String = text::replace(c.as_str(), "vmatrix(", "mat(delim: \"|\",");
    text::replace(d.as_str(), "Bmatrix(", "mat(delim: \"{\",")
}

/// What stands before the formula in the document.
pub open spec fn document_head() -> Seq<char> {
    "\n#set page(width: auto, height: auto, margin: 4pt)\n#set text(size: 16pt, fill: rgb(\"#e0e0e0\"))\n$"@
}

/// What stands behind the formula in the document.
pub open spec fn document_tail() -> Seq<char> {
    "$\n"@
}

/// The document of a formula that has been converted, or what is said of it.
pub open spec fn document_of(converted: Result<Seq<char>, Seq<char>>) -> Result<
    Seq<char>,
    Seq<char>,
> {
    match converted {
        Err(e) => Err("LaTeX parse error: "@ + e),
        Ok(math) => if math.contains('$') {
            Err("expression produces unsafe typst output"@)
        } else {
            Ok(document_head() + fixed_up(math) + document_tail())
        },
    }
}

/// The value of a text or of what is said in its place.
pub open spec fn text_result(r: Result<String, String>) -> Result<Seq<char>, Seq<char>> {
    match r {
        Ok(t) => Ok(t@),
        Err(e) => Err(e@),
    }
}

/// The document of a formula that has been converted. One with a dollar sign in it
/// could leave the formula, and is refused.
pub fn typst_document(converted: Result<String, String>) -> (r: Result<String, String>)
    ensures
        text_result(r) == document_of(text_result(converted)),
{
    let math: String = match converted {
        Ok(m) => m,
        Err(e) => {
            let mut out: String = "LaTeX parse error: ".to_owned();
            out.append(e.as_str());
            return Err(out);
        },
    };
    let chars: Vec<char> = text::chars_of(math.as_str());
    let mut i: usize = 0;
    while i < chars.len()
        invariant
            chars@ == math@,
            i <= chars@.len(),
            text_result(converted) == Ok::<Seq<char>, Seq<char>>(math@),
            forall|k: int| 0 <= k < i ==> math@[k] != '$',
        decreases chars@.len() - i,
    {
        if chars[i] == '$' {
            assert(math@.contains('$'));
            return Err("expression produces unsafe typst output".to_owned());
        }
        i = i + 1;
    }
    let fixed: String = fixup_mitex_output(math.as_str());
    let mut out: String = "\n#set page(width: auto, height: auto, margin: 4pt)\n#set text(size: 16pt, fill: rgb(\"#e0e0e0\"))\n$".to_owned();
    out.append(fixed.as_str());
    out.append("$\n");
    Ok(out)
}

/// Formulas that ask whether they are set by Typst are refused.
pub fn check_formula(latex: &str) -> (r: Result<(), String>)
    ensures
        match r {
            Ok(_) => !text::occurs(latex@, "\\iftypst"@),
            Err(e) => text::occurs(latex@, "\\iftypst"@) && e@ == "\\iftypst is not supported"@,
        },
{
    if text::contains(latex, "\\iftypst") {
        return Err("\\iftypst is not supported".to_owned());
    }
    Ok(())
}

/// The document of a formula. `None` for one that has to be converted first: of
/// formulas that are not simple it is not known that the conversion comes back.
pub fn latex_document(latex: &str) -> (r: Option<Result<String, String>>)
    ensures
        if text::occurs(latex@, "\\iftypst"@) {
            r matches Some(Err(e)) && e@ == "\\iftypst is not supported"@
        } else if is_simple(latex@) {
            r matches Some(d) && text_result(d) == document_of(mitex_math(latex@))
        } else {
            r is None
        },
        !text::occurs(latex@, "\\iftypst"@) && is_plain(latex@) ==> (r matches Some(d)
            && text_result(d) == document_of(Ok(spaced(latex@)))),
{
    if let Err(e) = check_formula(latex) {
        return Some(Err(e));
    }
    proof {
        if is_plain(latex@) {
            lemma_plain_is_simple(latex@);
        }
    }
    if !simple_formula(latex) {
        return None;
    }
    Some(typst_document(convert_simple(latex)))
}

proof fn lemma_replaced_adds_nothing(s: Seq<char>, from: Seq<char>, to: Seq<char>, c: char)
    requires
        from.len() > 0,
        !s.contains(c),
        !to.contains(c),
    ensures
        !text::replaced(s, from, to).contains(c),
    decreases s.len(),
{
    let r = text::replaced(s, from, to);
    if s.len() < from.len() {
    } else if text::occurs_at(s, from, 0) {
        let rest = s.skip(from.len() as int);
        assert(!rest.contains(c)) by {
            assert forall|k: int| 0 <= k < rest.len() implies rest[k] != c by {
                assert(rest[k] == s[k + from.len()]);
            }
        }
        lemma_replaced_adds_nothing(rest, from, to, c);
        let tail = text::replaced(rest, from, to);
        assert(r == to + tail);
        assert forall|k: int| 0 <= k < r.len() implies r[k] != c by {
            if k < to.len() {
                assert(r[k] == to[k]);
            } else {
                assert(r[k] == tail[k - to.len()]);
            }
        }
    } else {
        let rest = s.skip(1);
        assert(!rest.contains(c)) by {
            assert forall|k: int| 0 <= k < rest.len() implies rest[k] != c by {
                assert(rest[k] == s[k + 1]);
            }
        }
        lemma_replaced_adds_nothing(rest, from, to, c);
        let tail = text::replaced(rest, from, to);
        assert(r == seq![s[0]] + tail);
        assert forall|k: int| 0 <= k < r.len() implies r[k] != c by {
            if k == 0 {
                assert(r[k] == s[0]);
            } else {
                assert(r[k] == tail[k - 1]);
            }
        }
    }
}

/// A formula stays between its two dollar signs: what stands there has none.
pub proof fn law_formulas_stay_formulas(math: Seq<char>)
    requires
        document_of(Ok(math)) is Ok,
    ensures
        !fixed_up(math).contains('$'),
{
    reveal_strlit("mitexsqrt(");
    reveal_strlit("sqrt(");
    reveal_strlit("pmatrix(");
    reveal_strlit("mat(");
    reveal_strlit("bmatrix(");
    reveal_strlit("mat(delim: \"[\",");
    reveal_strlit("vmatrix(");
    reveal_strlit("mat(delim: \"|\",");
    reveal_strlit("Bmatrix(");
    reveal_strlit("mat(delim: \"{\",");
    let a = text::replaced(math, "mitexsqrt("@, "sqrt("@);
    let b = text::replaced(a, "pmatrix("@, "mat("@);
    let c = text::replaced(b, "bmatrix("@, "mat(delim: \"[\","@);
    let d = text::replaced(c, "vmatrix("@, "mat(delim: \"|\","@);
    lemma_replaced_adds_nothing(math, "mitexsqrt("@, "sqrt("@, '$');
    lemma_replaced_adds_nothing(a, "pmatrix("@, "mat("@, '$');
    lemma_replaced_adds_nothing(b, "bmatrix("@, "mat(delim: \"[\","@, '$');
    lemma_replaced_adds_nothing(c, "vmatrix("@, "mat(delim: \"|\","@, '$');
    lemma_replaced_adds_nothing(d, "Bmatrix("@, "mat(delim: \"{\","@, '$');
}

/// A formula that could not be converted, or that holds a dollar sign once it is, has no
/// document. Any other has one that holds the formula between two dollar signs.
pub proof fn law_documents_hold_their_formula(converted: Result<Seq<char>, Seq<char>>)
    ensures
        document_of(converted) is Err <==> converted is Err || converted->Ok_0.contains('$'),
        document_of(converted) matches Ok(document) ==> document == document_head() + fixed_up(
            converted->Ok_0,
        ) + document_tail(),
        document_tail() == seq!['$', '\n'],
        document_head().last() == '$',
{
    reveal_strlit("$\n");
    assert("$\n"@ =~= seq!['$', '\n']);
    reveal_strlit(
        "\n#set page(width: auto, height: auto, margin: 4pt)\n#set text(size: 16pt, fill: rgb(\"#e0e0e0\"))\n$",
    );
}

proof fn lemma_leading_name(name: Seq<char>, rest: Seq<char>)
    requires
        forall|i: int| 0 <= i < name.len() ==> is_name_char(#[trigger] name[i]),
        rest.len() == 0 || !is_name_char(rest[0]),
    ensures
        leading_name(name + rest) == name,
    decreases name.len(),
{
    let s = name + rest;
    if name.len() == 0 {
        assert(s =~= rest);
        assert(leading_name(s) =~= name);
    } else {
        assert(s[0] == name[0]);
        assert(s.skip(1) =~= name.skip(1) + rest);
        assert forall|i: int| 0 <= i < name.skip(1).len() implies is_name_char(
            #[trigger] name.skip(1)[i],
        ) by {
            assert(name.skip(1)[i] == name[i + 1]);
        }
        lemma_leading_name(name.skip(1), rest);
        assert(leading_name(s) =~= name);
    }
}

/// A formula without a command is converted, however long it is, as long as it is not
/// nested more than 256 deep.
pub proof fn law_formulas_without_commands_are_converted(latex: Seq<char>)
    requires
        !latex.contains('\\'),
    ensures
        is_simple(latex) <==> nesting(latex) <= 256,
{
    assert forall|i: int| 0 <= i < latex.len() implies latex[i] != '\\' by {
        assert(latex.contains(latex[i]));
    }
    lemma_no_commands(latex);
}

/// A formula that starts with a command is converted only where the command is none of
/// those that the conversion may not come back from, whatever follows.
pub proof fn law_risky_commands_are_not_converted(name: Seq<char>, rest: Seq<char>)
    requires
        name == "label"@
            || name == "includegraphics"@
            || name == "over"@
            || name == "atop"@
            || name == "choose"@
            || name == "brace"@
            || name == "brack"@
            || name == "limits"@
            || name == "nolimits"@
            || name == "displaystyle"@
            || name == "textstyle"@
            || name == "scriptstyle"@
            || name == "scriptscriptstyle"@
            || name == "rm"@
            || name == "bf"@
            || name == "it"@
            || name == "sf"@
            || name == "tt"@
            || name == "cal"@
            || name == "frak"@
            || name == "color"@
            || name == "newcommand"@
            || name == "renewcommand"@
            || name == "providecommand"@
            || name == "DeclareRobustCommand"@
            || name == "newenvironment"@
            || name == "renewenvironment"@,
        name.len() > 0,
        name != "begin"@ && name != "end"@,
        forall|i: int| 0 <= i < name.len() ==> is_name_char(#[trigger] name[i]),
        rest.len() == 0 || !is_name_char(rest[0]),
    ensures
        !is_simple(seq!['\\'] + name + rest),
{
    let latex = seq!['\\'] + name + rest;
    lemma_leading_name(name, rest);
    assert(latex.skip(1) =~= name + rest);
    assert(latex[1] == name[0]);
    assert(is_risky(name));
    assert(!command_allowed(name + rest));
}

/// Whether a part is set inside or upon another is counted sign by sign.
pub proof fn law_nesting_is_counted(latex: Seq<char>, c: char)
    ensures
        nesting(Seq::empty()) == 0,
        nesting(latex.push(c)) == nesting(latex) + if c == '{' || c == '$' || c == '^' || c == '_' || c
            == '\'' || c == '\\' {
            1nat
        } else {
            0nat
        },
        spaced(latex.push(c)) == spaced(latex) + if c == ' ' {
            seq![' ']
        } else {
            seq![c, ' ']
        },
{
    assert(latex.push(c).drop_last() =~= latex);
}

/// A formula is refused exactly where it has a Typst command in it.
pub proof fn law_typst_is_not_let_through(latex: &str, r: Result<(), String>)
    requires
        call_ensures(check_formula, (latex,), r),
    ensures
        r is Err <==> text::occurs(latex@, "\\iftypst"@),
{
}

/// A formula without a Typst command is converted where it is simple, and left where it is
/// not.
pub proof fn law_simple_formulas_are_converted(
    latex: &str,
    r: Option<Result<String, String>>,
)
    requires
        call_ensures(latex_document, (latex,), r),
        !text::occurs(latex@, "\\iftypst"@),
    ensures
        r is Some <==> is_simple(latex@),
        !latex@.contains('\\') && nesting(latex@) <= 256 ==> r is Some,
{
    if !latex@.contains('\\') {
        law_formulas_without_commands_are_converted(latex@);
    }
}

/// Tables and figures are not converted, whatever follows; other environments do not stand
/// in the way.
pub proof fn law_tables_and_figures_are_not_converted(name: Seq<char>, rest: Seq<char>)
    requires
        name.len() > 0,
        forall|i: int| 0 <= i < name.len() ==> is_name_char(#[trigger] name[i]),
    ensures
        name == "tabular"@ || name == "table"@ || name == "figure"@ ==> !is_simple(
            seq!['\\'] + "begin"@ + seq!['{'] + name + seq!['}'] + rest,
        ),
        environment_allowed(seq!['{'] + name + seq!['}'] + rest) <==> !(name == "tabular"@ || name
            == "table"@ || name == "figure"@),
        environment_allowed(seq!['{'] + name + seq!['*', '}'] + rest) <==> !(name == "tabular"@
            || name == "table"@ || name == "figure"@),
{
    reveal_strlit("begin");
    reveal_strlit("end");
    let begin = "begin"@;
    assert(begin.len() == 5 && begin[0] == 'b' && begin[1] == 'e' && begin[2] == 'g' && begin[3] == 'i'
        && begin[4] == 'n');
    let plain = seq!['{'] + name + seq!['}'] + rest;
    let starred = seq!['{'] + name + seq!['*', '}'] + rest;
    assert(plain.skip(1) =~= name + (seq!['}'] + rest));
    assert(starred.skip(1) =~= name + (seq!['*', '}'] + rest));
    lemma_leading_name(name, seq!['}'] + rest);
    lemma_leading_name(name, seq!['*', '}'] + rest);
    assert(plain[name.len() as int + 1] == '}');
    assert(starred[name.len() as int + 1] == '*');
    assert(starred[name.len() as int + 2] == '}');
    let latex = seq!['\\'] + begin + seq!['{'] + name + seq!['}'] + rest;
    assert(latex.skip(1) =~= begin + plain);
    assert(latex[1] == 'b');
    lemma_leading_name(begin, plain);
    assert((begin + plain).skip(5) =~= plain);
}

} // verus!
