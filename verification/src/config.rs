//! Text-level maintenance of an agent's `config.toml`.
//!
//! A field line such as `version = "1.2.3"` or `allow_remote_os_upgrade =
//! true` is rewritten in place, or added, without a TOML round trip, so that
//! comments and the order of the other lines survive.  Each function takes
//! the file's current text and returns the text to write, or `None` when the
//! file must be left alone; reading and writing the file is the caller's job.

use crate::text::{
    chars_eq, is_ws, lemma_lines_cons, lemma_lines_have_no_newline, lemma_lines_of_terminated_join,
    lemma_lines_final_newline, lemma_lines_of_join, lemma_lines_split, lemma_trim_end_prefix, strip_cr, chars_of, concat_chars, join_lines, join_lines_chars, line_views, lines, split_lines,
    starts_with, starts_with_chars, string_of, sub_chars, trim_end, trim_end_chars, trim_start,
    trim_start_chars,
};
use vstd::prelude::*;

verus! {

#[verifier::external_type_specification]
#[verifier::external_body]
pub struct ExIoError(std::io::Error);

/// Why a config file could not be loaded.
pub enum ConfigError {
    Io(std::io::Error),
    Parse(String),
}

#[verifier::external_body]
/// The `Display` text of an I/O error.  It comes from the operating system,
/// so nothing is stated of it.
fn io_error_text(e: &std::io::Error) -> String {
    format!("{e}")
}

/// The message of an I/O failure whose error reads `text`:
/// `config io error: <text>`.
pub fn io_error_message(text: &str) -> (m: String)
    ensures
        m@ == "config io error: "@ + text@,
{
    let head = chars_of("config io error: ");
    let tail = chars_of(text);
    let all = concat_chars(&head, &tail);
    string_of(&all)
}

/// The message of a parse failure described by `msg`:
/// `config parse error: <msg>`.
pub fn parse_error_message(msg: &str) -> (m: String)
    ensures
        m@ == "config parse error: "@ + msg@,
{
    let head = chars_of("config parse error: ");
    let tail = chars_of(msg);
    let all = concat_chars(&head, &tail);
    string_of(&all)
}

impl ConfigError {
    /// `config io error: <error>` or `config parse error: <message>`.  The
    /// I/O error's own text comes from the operating system and is taken as
    /// it is, after the prefix.
    pub fn message(&self) -> (m: String)
        ensures
            match self {
                ConfigError::Io(_) => exists|text: Seq<char>| m@ == "config io error: "@ + text,
                ConfigError::Parse(msg) => m@ == "config parse error: "@ + msg@,
            },
    {
        match self {
            ConfigError::Io(e) => {
                let text = io_error_text(e);
                io_error_message(text.as_str())
            },
            ConfigError::Parse(msg) => parse_error_message(msg.as_str()),
        }
    }
}

/// Where an agent's `config.toml` lives on Linux and macOS:
/// `/etc/<agent_name>/config.toml`, joined as paths join (an absolute name
/// replaces `/etc`, and no separator is doubled).
pub open spec fn spec_default_config_path(agent_name: Seq<char>) -> Seq<char> {
    let dir = if agent_name.len() > 0 && agent_name[0] == '/' {
        agent_name
    } else {
        "/etc/"@ + agent_name
    };
    if dir.len() > 0 && dir.last() == '/' {
        dir + "config.toml"@
    } else {
        dir + "/config.toml"@
    }
}

/// The default `config.toml` path of an agent on Linux and macOS.
pub fn default_config_path(agent_name: &str) -> (p: String)
    ensures
        p@ == spec_default_config_path(agent_name@),
{
    let name = chars_of(agent_name);
    let dir = if name.len() > 0 && name[0] == '/' {
        sub_chars(&name, 0, name.len())
    } else {
        let etc = chars_of("/etc/");
        concat_chars(&etc, &name)
    };
    proof {
        assert(name@.subrange(0, name@.len() as int) =~= name@);
    }
    let file = if dir.len() > 0 && dir[dir.len() - 1] == '/' {
        chars_of("config.toml")
    } else {
        chars_of("/config.toml")
    };
    let all = concat_chars(&dir, &file);
    string_of(&all)
}

/// Whether some line of `ls`, ignoring its leading whitespace, is `target`.
pub open spec fn has_line(ls: Seq<Seq<char>>, target: Seq<char>) -> bool {
    exists|i: int| 0 <= i < ls.len() && #[trigger] trim_start(ls[i]) == target
}

/// Whether some line of `ls`, ignoring its leading whitespace, starts with `prefix`.
pub open spec fn has_line_starting(ls: Seq<Seq<char>>, prefix: Seq<char>) -> bool {
    exists|i: int| 0 <= i < ls.len() && starts_with(#[trigger] trim_start(ls[i]), prefix)
}

/// `ls` with every line that starts with `prefix` (after its leading
/// whitespace) replaced by `target`, and every other line kept as it is.
pub open spec fn replace_lines(ls: Seq<Seq<char>>, prefix: Seq<char>, target: Seq<char>) -> Seq<
    Seq<char>,
> {
    Seq::new(
        ls.len(),
        |i: int|
            if starts_with(trim_start(ls[i]), prefix) {
                target
            } else {
                ls[i]
            },
    )
}

/// The line `version = "<version>"`.
pub open spec fn version_line(version: Seq<char>) -> Seq<char> {
    "version = \""@ + version + "\""@
}

/// The text to write so that the file states `version`, or `None` when
/// nothing is to be written: no file yet, or the line is already there.
/// An existing `version = ` line is replaced (the lines are then joined
/// with `\n`, with no final newline); otherwise the line is put first.
pub open spec fn spec_sync_version(existing: Option<Seq<char>>, version: Seq<char>) -> Option<
    Seq<char>,
> {
    match existing {
        None => None,
        Some(contents) => {
            let ls = lines(contents);
            let target = version_line(version);
            if has_line(ls, target) {
                None
            } else if has_line_starting(ls, "version = "@) {
                Some(join_lines(replace_lines(ls, "version = "@, target)))
            } else {
                Some(target + seq!['\n'] + contents)
            }
        },
    }
}

/// The text to write so that the file holds the line `target` for `field`,
/// or `None` when that line is already there.  An existing `<field> = ` line
/// is replaced; otherwise the line is appended after the existing text with
/// its trailing whitespace removed.  The written text ends with `\n`.
pub open spec fn spec_sync_field_line(contents: Seq<char>, field: Seq<char>, target: Seq<char>) -> Option<
    Seq<char>,
> {
    let ls = lines(contents);
    let prefix = field + " = "@;
    if has_line(ls, target) {
        None
    } else {
        let updated = if has_line_starting(ls, prefix) {
            join_lines(replace_lines(ls, prefix, target))
        } else if contents.len() == 0 {
            target
        } else {
            trim_end(contents) + seq!['\n'] + target
        };
        Some(updated + seq!['\n'])
    }
}

/// The line `<field> = true` or `<field> = false`.
pub open spec fn bool_line(field: Seq<char>, value: bool) -> Seq<char> {
    field + " = "@ + if value {
        "true"@
    } else {
        "false"@
    }
}

/// One character as it is written inside a TOML basic string.
pub open spec fn escape_char(c: char) -> Seq<char> {
    if c == '\\' {
        seq!['\\', '\\']
    } else if c == '"' {
        seq!['\\', '"']
    } else {
        seq![c]
    }
}

/// `s` with each backslash doubled and each double quote preceded by a backslash.
pub open spec fn escape(s: Seq<char>) -> Seq<char>
    decreases s.len(),
{
    if s.len() == 0 {
        seq![]
    } else {
        escape(s.drop_last()) + escape_char(s.last())
    }
}

/// The text a TOML basic string denotes for the escapes `escape` writes:
/// a backslash takes the character after it literally.
pub open spec fn unescape(s: Seq<char>) -> Seq<char>
    decreases s.len(),
{
    if s.len() == 0 {
        seq![]
    } else if s[0] == '\\' && s.len() >= 2 {
        seq![s[1]] + unescape(s.skip(2))
    } else {
        seq![s[0]] + unescape(s.drop_first())
    }
}

proof fn lemma_escape_concat(a: Seq<char>, b: Seq<char>)
    ensures
        escape(a + b) == escape(a) + escape(b),
    decreases b.len(),
{
    if b.len() == 0 {
        assert(a + b =~= a);
        assert(escape(a) + escape(b) =~= escape(a));
    } else {
        lemma_escape_concat(a, b.drop_last());
        assert((a + b).drop_last() =~= a + b.drop_last());
        assert((a + b).last() == b.last());
        assert(escape(a) + escape(b.drop_last()) + escape_char(b.last()) =~= escape(a) + (escape(
            b.drop_last(),
        ) + escape_char(b.last())));
    }
}

/// Reading back the escaped text of a value gives the value: what
/// `sync_string_text` writes between the quotes stands for exactly `value`.
pub proof fn lemma_unescape_escape(v: Seq<char>)
    ensures
        unescape(escape(v)) == v,
    decreases v.len(),
{
    if v.len() > 0 {
        let c = v[0];
        let rest = v.drop_first();
        assert(v =~= seq![c] + rest);
        lemma_escape_concat(seq![c], rest);
        assert(seq![c].drop_last() =~= Seq::<char>::empty());
        assert(seq![c].last() == c);
        assert(escape(Seq::<char>::empty()) == Seq::<char>::empty());
        assert(escape(seq![c]) == escape(Seq::<char>::empty()) + escape_char(c));
        assert(escape(seq![c]) =~= escape_char(c));
        lemma_unescape_escape(rest);
        let e = escape_char(c) + escape(rest);
        if c == '\\' || c == '"' {
            assert(e.skip(2) =~= escape(rest));
            assert(e[0] == '\\' && e[1] == c);
        } else {
            assert(e.drop_first() =~= escape(rest));
            assert(e[0] == c);
        }
        assert(seq![c] + rest =~= v);
    }
}

/// The line `<field> = "<value>"` with `value` escaped.
pub open spec fn string_line(field: Seq<char>, value: Seq<char>) -> Seq<char> {
    field + " = \""@ + escape(value) + "\""@
}

/// A single `\n`.
fn newline() -> (r: Vec<char>)
    ensures
        r@ == seq!['\n'],
{
    let mut r: Vec<char> = Vec::new();
    r.push('\n');
    assert(r@ =~= seq!['\n']);
    r
}

fn has_line_chars(ls: &Vec<Vec<char>>, target: &Vec<char>) -> (r: bool)
    ensures
        r == has_line(line_views(ls@), target@),
{
    let ghost d = line_views(ls@);
    let mut i: usize = 0;
    while i < ls.len()
        invariant
            i <= ls.len(),
            d == line_views(ls@),
            forall|j: int| 0 <= j < i ==> #[trigger] trim_start(d[j]) != target@,
        decreases ls.len() - i,
    {
        let t = trim_start_chars(&ls[i]);
        if chars_eq(&t, target) {
            assert(trim_start(d[i as int]) == target@);
            return true;
        }
        i = i + 1;
    }
    false
}

fn has_line_starting_chars(ls: &Vec<Vec<char>>, prefix: &Vec<char>) -> (r: bool)
    ensures
        r == has_line_starting(line_views(ls@), prefix@),
{
    let ghost d = line_views(ls@);
    let mut i: usize = 0;
    while i < ls.len()
        invariant
            i <= ls.len(),
            d == line_views(ls@),
            forall|j: int| 0 <= j < i ==> !starts_with(#[trigger] trim_start(d[j]), prefix@),
        decreases ls.len() - i,
    {
        let t = trim_start_chars(&ls[i]);
        if starts_with_chars(&t, prefix) {
            assert(starts_with(trim_start(d[i as int]), prefix@));
            return true;
        }
        i = i + 1;
    }
    false
}

fn replace_lines_chars(ls: &Vec<Vec<char>>, prefix: &Vec<char>, target: &Vec<char>) -> (r: Vec<
    Vec<char>,
>)
    ensures
        line_views(r@) == replace_lines(line_views(ls@), prefix@, target@),
{
    let ghost d = line_views(ls@);
    let ghost want = replace_lines(d, prefix@, target@);
    let mut r: Vec<Vec<char>> = Vec::new();
    let mut i: usize = 0;
    while i < ls.len()
        invariant
            i <= ls.len(),
            d == line_views(ls@),
            want == replace_lines(d, prefix@, target@),
            line_views(r@) == want.take(i as int),
        decreases ls.len() - i,
    {
        let t = trim_start_chars(&ls[i]);
        let line = if starts_with_chars(&t, prefix) {
            sub_chars(target, 0, target.len())
        } else {
            sub_chars(&ls[i], 0, ls[i].len())
        };
        let ghost before = line_views(r@);
        r.push(line);
        proof {
            assert(target@.subrange(0, target@.len() as int) =~= target@);
            assert(ls@[i as int]@.subrange(0, ls@[i as int]@.len() as int) =~= ls@[i as int]@);
            assert(line_views(r@) =~= before.push(line@));
            assert(want.take(i + 1) =~= want.take(i as int).push(want[i as int]));
        }
        i = i + 1;
    }
    assert(want.take(ls.len() as int) =~= want);
    r
}

/// The text to write for `target` in the field-line scheme of
/// `spec_sync_field_line`.
fn sync_field_line(contents: &Vec<char>, field: &Vec<char>, target: &Vec<char>) -> (r: Option<
    Vec<char>,
>)
    ensures
        match r {
            Some(t) => spec_sync_field_line(contents@, field@, target@) == Some(t@),
            None => spec_sync_field_line(contents@, field@, target@) is None,
        },
{
    let ls = split_lines(contents);
    if has_line_chars(&ls, target) {
        return None;
    }
    let eq_sep = chars_of(" = ");
    let prefix = concat_chars(field, &eq_sep);
    let updated = if has_line_starting_chars(&ls, &prefix) {
        let replaced = replace_lines_chars(&ls, &prefix, target);
        join_lines_chars(&replaced)
    } else if contents.len() == 0 {
        sub_chars(target, 0, target.len())
    } else {
        let kept = trim_end_chars(contents);
        let nl = newline();
        let with_nl = concat_chars(&kept, &nl);
        concat_chars(&with_nl, target)
    };
    let nl = newline();
    let written = concat_chars(&updated, &nl);
    proof {
        assert(target@.subrange(0, target@.len() as int) =~= target@);
    }
    Some(written)
}

/// The new text of a config file whose `version` line must read
/// `current_version`, or `None` when the file must stay as it is.
/// `existing` is the file's text, `None` when there is no file yet.
pub fn sync_version_text(existing: Option<&str>, current_version: &str) -> (r: Option<String>)
    ensures
        match r {
            Some(t) => spec_sync_version(
                match existing {
                    Some(c) => Some(c@),
                    None => None,
                },
                current_version@,
            ) == Some(t@),
            None => spec_sync_version(
                match existing {
                    Some(c) => Some(c@),
                    None => None,
                },
                current_version@,
            ) is None,
        },
{
    let text = match existing {
        None => {
            return None;
        },
        Some(t) => t,
    };
    let contents = chars_of(text);
    let ls = split_lines(&contents);
    let head = chars_of("version = \"");
    let version = chars_of(current_version);
    let quote = chars_of("\"");
    let head_version = concat_chars(&head, &version);
    let target = concat_chars(&head_version, &quote);
    if has_line_chars(&ls, &target) {
        return None;
    }
    let prefix = chars_of("version = ");
    if has_line_starting_chars(&ls, &prefix) {
        let replaced = replace_lines_chars(&ls, &prefix, &target);
        let joined = join_lines_chars(&replaced);
        Some(string_of(&joined))
    } else {
        let nl = newline();
        let first = concat_chars(&target, &nl);
        let all = concat_chars(&first, &contents);
        Some(string_of(&all))
    }
}

/// The new text of a config file whose boolean `field` must read `value`,
/// or `None` when it already does.  `existing` is the file's text, empty
/// when there is no file yet.
pub fn sync_bool_text(existing: &str, field: &str, value: bool) -> (r: Option<String>)
    ensures
        match r {
            Some(t) => spec_sync_field_line(existing@, field@, bool_line(field@, value)) == Some(
                t@,
            ),
            None => spec_sync_field_line(existing@, field@, bool_line(field@, value)) is None,
        },
{
    let contents = chars_of(existing);
    let name = chars_of(field);
    let eq_sep = chars_of(" = ");
    let word = if value {
        chars_of("true")
    } else {
        chars_of("false")
    };
    let head = concat_chars(&name, &eq_sep);
    let target = concat_chars(&head, &word);
    match sync_field_line(&contents, &name, &target) {
        Some(t) => Some(string_of(&t)),
        None => None,
    }
}

/// `value` escaped for a TOML basic string.
pub fn escape_chars(value: &Vec<char>) -> (r: Vec<char>)
    ensures
        r@ == escape(value@),
{
    let mut r: Vec<char> = Vec::new();
    let mut i: usize = 0;
    while i < value.len()
        invariant
            i <= value.len(),
            r@ == escape(value@.take(i as int)),
        decreases value.len() - i,
    {
        let c = value[i];
        let ghost before = r@;
        if c == '\\' {
            r.push('\\');
            r.push('\\');
        } else if c == '"' {
            r.push('\\');
            r.push('"');
        } else {
            r.push(c);
        }
        proof {
            assert(value@.take(i + 1).drop_last() =~= value@.take(i as int));
            assert(r@ =~= before + escape_char(c));
        }
        i = i + 1;
    }
    assert(value@.take(value.len() as int) =~= value@);
    r
}

/// The new text of a config file whose string `field` must read `value`
/// (written escaped, between double quotes), or `None` when it already
/// does.  `existing` is the file's text, empty when there is no file yet.
pub fn sync_string_text(existing: &str, field: &str, value: &str) -> (r: Option<String>)
    ensures
        match r {
            Some(t) => spec_sync_field_line(existing@, field@, string_line(field@, value@))
                == Some(t@),
            None => spec_sync_field_line(existing@, field@, string_line(field@, value@)) is None,
        },
{
    let contents = chars_of(existing);
    let name = chars_of(field);
    let open_quote = chars_of(" = \"");
    let close_quote = chars_of("\"");
    let raw = chars_of(value);
    let escaped = escape_chars(&raw);
    let head = concat_chars(&name, &open_quote);
    let body = concat_chars(&head, &escaped);
    let target = concat_chars(&body, &close_quote);
    match sync_field_line(&contents, &name, &target) {
        Some(t) => Some(string_of(&t)),
        None => None,
    }
}

/// Text whose first character is not whitespace is unchanged by `trim_start`.
proof fn lemma_trim_start_fixed(t: Seq<char>)
    requires
        t.len() > 0,
        !is_ws(t[0]),
    ensures
        trim_start(t) == t,
{
}

/// The lines read back from `join_lines(r)` (no final newline) include
/// every non-empty element of `r`, when no element holds a `\n` and the
/// element does not end with `\r`.
proof fn lemma_join_keeps_line(r: Seq<Seq<char>>, i: int)
    requires
        0 <= i < r.len(),
        forall|j: int| 0 <= j < r.len() ==> !(#[trigger] r[j]).contains('\n'),
        r[i].len() > 0,
        strip_cr(r[i]) == r[i],
    ensures
        lines(join_lines(r)).contains(r[i]),
{
    let n = r.len();
    if n == 1 {
        crate::text::lemma_lines_single(r[0]);
        assert(lines(join_lines(r))[0] == r[0]);
    } else {
        let init = r.take(n - 1);
        assert(r.take(n as int) =~= r);
        crate::text::lemma_join_extend(r, n - 1);
        assert forall|j: int| 0 <= j < init.len() implies !(#[trigger] init[j]).contains('\n') by {
            assert(init[j] == r[j]);
        }
        let a = join_lines(init);
        lemma_lines_split(a, r[n - 1]);
        lemma_lines_of_terminated_join(init);
        crate::text::lemma_lines_single(r[n - 1]);
        let whole = lines(a + seq!['\n']) + lines(r[n - 1]);
        if i == n - 1 {
            assert(whole[whole.len() - 1] == r[i]);
        } else {
            assert(lines(a + seq!['\n'])[i] == strip_cr(init[i]));
            assert(whole[i] == r[i]);
        }
    }
}

/// Once a field line is written, syncing the same line again writes nothing:
/// the written text has the line, as long as the line holds no `\n`, does
/// not start with whitespace and does not end with `\r`.
pub proof fn lemma_sync_field_settles(contents: Seq<char>, field: Seq<char>, target: Seq<char>)
    requires
        !target.contains('\n'),
        target.len() > 0,
        trim_start(target) == target,
        target.last() != '\r',
    ensures
        match spec_sync_field_line(contents, field, target) {
            Some(t) => has_line(lines(t), target) && spec_sync_field_line(t, field, target) is None,
            None => has_line(lines(contents), target),
        },
{
    let ls = lines(contents);
    let prefix = field + " = "@;
    let nl = seq!['\n'];
    assert(strip_cr(target) == target);
    if !has_line(ls, target) {
        let t = spec_sync_field_line(contents, field, target).unwrap();
        if has_line_starting(ls, prefix) {
            let r = replace_lines(ls, prefix, target);
            let i = choose|i: int| 0 <= i < ls.len() && starts_with(#[trigger] trim_start(ls[i]), prefix);
            lemma_lines_have_no_newline(contents);
            assert forall|j: int| 0 <= j < r.len() implies !(#[trigger] r[j]).contains('\n') by {
                if !starts_with(trim_start(ls[j]), prefix) {
                    assert(r[j] == ls[j]);
                }
            }
            lemma_lines_of_terminated_join(r);
            assert(lines(t)[i] == strip_cr(r[i]));
            assert(trim_start(lines(t)[i]) == target);
        } else if contents.len() == 0 {
            lemma_lines_cons(target, Seq::<char>::empty());
            assert(target + nl + Seq::<char>::empty() =~= t);
            assert(lines(t)[0] == target);
        } else {
            let a = trim_end(contents);
            assert(t =~= a + nl + (target + nl));
            lemma_lines_split(a, target + nl);
            lemma_lines_cons(target, Seq::<char>::empty());
            assert(target + nl + Seq::<char>::empty() =~= target + nl);
            let first = lines(a + nl);
            assert(lines(t) == first + (seq![target] + lines(Seq::<char>::empty())));
            assert(lines(t)[first.len() as int] == target);
        }
    }
}

/// Syncing a boolean field twice writes nothing the second time, for a
/// field name with no `\n` that does not start with whitespace.
pub proof fn lemma_sync_bool_settles(contents: Seq<char>, field: Seq<char>, value: bool)
    requires
        field.len() > 0,
        !is_ws(field[0]),
        !field.contains('\n'),
    ensures
        match spec_sync_field_line(contents, field, bool_line(field, value)) {
            Some(t) => has_line(lines(t), bool_line(field, value)) && spec_sync_field_line(
                t,
                field,
                bool_line(field, value),
            ) is None,
            None => has_line(lines(contents), bool_line(field, value)),
        },
{
    reveal_strlit(" = ");
    reveal_strlit("true");
    reveal_strlit("false");
    let target = bool_line(field, value);
    assert(target[0] == field[0]);
    lemma_trim_start_fixed(target);
    assert(!target.contains('\n')) by {
        if target.contains('\n') {
            let j = choose|j: int| 0 <= j < target.len() && target[j] == '\n';
            if j < field.len() {
                assert(field[j] == target[j]);
            }
        }
    }
    lemma_sync_field_settles(contents, field, target);
}

/// Escaping adds no `\n`.
proof fn lemma_escape_no_newline(s: Seq<char>)
    requires
        !s.contains('\n'),
    ensures
        !escape(s).contains('\n'),
    decreases s.len(),
{
    if s.len() > 0 {
        let d = s.drop_last();
        assert(!d.contains('\n')) by {
            if d.contains('\n') {
                let j = choose|j: int| 0 <= j < d.len() && d[j] == '\n';
                assert(s[j] == d[j]);
            }
        }
        lemma_escape_no_newline(d);
        assert(s.last() != '\n') by {
            if s.last() == '\n' {
                assert(s.contains('\n'));
            }
        }
        let e = escape_char(s.last());
        assert(!e.contains('\n'));
        assert(!(escape(d) + e).contains('\n')) by {
            if (escape(d) + e).contains('\n') {
                let j = choose|j: int| 0 <= j < (escape(d) + e).len() && (escape(d) + e)[j] == '\n';
                if j < escape(d).len() {
                    assert(escape(d)[j] == '\n');
                } else {
                    assert(e[j - escape(d).len()] == '\n');
                }
            }
        }
    }
}

/// Syncing a string field twice writes nothing the second time, for a field
/// name with no `\n` that does not start with whitespace and a value with no `\n`.
pub proof fn lemma_sync_string_settles(contents: Seq<char>, field: Seq<char>, value: Seq<char>)
    requires
        field.len() > 0,
        !is_ws(field[0]),
        !field.contains('\n'),
        !value.contains('\n'),
    ensures
        match spec_sync_field_line(contents, field, string_line(field, value)) {
            Some(t) => has_line(lines(t), string_line(field, value)) && spec_sync_field_line(
                t,
                field,
                string_line(field, value),
            ) is None,
            None => has_line(lines(contents), string_line(field, value)),
        },
{
    reveal_strlit(" = \"");
    reveal_strlit("\"");
    let target = string_line(field, value);
    let e = escape(value);
    lemma_escape_no_newline(value);
    assert(target =~= field + " = \""@ + e + "\""@);
    assert(target[0] == field[0]);
    lemma_trim_start_fixed(target);
    assert(target.last() == '"');
    assert(!target.contains('\n')) by {
        if target.contains('\n') {
            let j = choose|j: int| 0 <= j < target.len() && target[j] == '\n';
            if j < field.len() {
                assert(field[j] == target[j]);
            } else if j >= field.len() + 4 && j < field.len() + 4 + e.len() {
                assert(e[j - field.len() - 4] == target[j]);
            }
        }
    }
    lemma_sync_field_settles(contents, field, target);
}

/// Once the version line is written, syncing the same version again writes
/// nothing, for a version with no `\n`.
pub proof fn lemma_sync_version_settles(contents: Seq<char>, version: Seq<char>)
    requires
        !version.contains('\n'),
    ensures
        match spec_sync_version(Some(contents), version) {
            Some(t) => has_line(lines(t), version_line(version)) && spec_sync_version(
                Some(t),
                version,
            ) is None,
            None => has_line(lines(contents), version_line(version)),
        },
{
    reveal_strlit("version = \"");
    reveal_strlit("\"");
    let target = version_line(version);
    let ls = lines(contents);
    let nl = seq!['\n'];
    assert(target[0] == 'v');
    lemma_trim_start_fixed(target);
    assert(target.last() == '"');
    assert(strip_cr(target) == target);
    assert(!target.contains('\n')) by {
        if target.contains('\n') {
            let j = choose|j: int| 0 <= j < target.len() && target[j] == '\n';
            if j >= 11 && j < 11 + version.len() {
                assert(version[j - 11] == target[j]);
            }
        }
    }
    if !has_line(ls, target) {
        let t = spec_sync_version(Some(contents), version).unwrap();
        if has_line_starting(ls, "version = "@) {
            let r = replace_lines(ls, "version = "@, target);
            let i = choose|i: int|
                0 <= i < ls.len() && starts_with(#[trigger] trim_start(ls[i]), "version = "@);
            lemma_lines_have_no_newline(contents);
            assert forall|j: int| 0 <= j < r.len() implies !(#[trigger] r[j]).contains('\n') by {
                if !starts_with(trim_start(ls[j]), "version = "@) {
                    assert(r[j] == ls[j]);
                }
            }
            assert(r[i] == target);
            lemma_join_keeps_line(r, i);
            let k = choose|k: int| 0 <= k < lines(t).len() && lines(t)[k] == target;
            assert(trim_start(lines(t)[k]) == target);
        } else {
            lemma_lines_cons(target, contents);
            assert(lines(t)[0] == target);
        }
    }
}

/// When the file has no `<field> = ` line yet, syncing keeps the whole
/// existing text (less its trailing whitespace) and adds the field's line
/// after it: the written text starts with `trim_end(contents)`, its lines
/// start with the lines of that text, and its last line is `target`.  When
/// the kept text is not empty, those are all of its lines.
pub proof fn lemma_sync_field_appends_after_text(
    contents: Seq<char>,
    field: Seq<char>,
    target: Seq<char>,
    written: Seq<char>,
)
    requires
        spec_sync_field_line(contents, field, target) == Some(written),
        !has_line_starting(lines(contents), field + " = "@),
        !target.contains('\n'),
        target.len() > 0,
        target.last() != '\r',
    ensures
        written.take(trim_end(contents).len() as int) == trim_end(contents),
        written.last() == '\n',
        lines(written).len() > lines(trim_end(contents)).len(),
        lines(written).take(lines(trim_end(contents)).len() as int) == lines(trim_end(contents)),
        lines(written).last() == target,
        trim_end(contents).len() > 0 ==> lines(written) == lines(trim_end(contents)).push(target),
{
    let nl = seq!['\n'];
    let a = trim_end(contents);
    lemma_lines_cons(target, Seq::<char>::empty());
    assert(target + nl + Seq::<char>::empty() =~= target + nl);
    assert(lines(Seq::<char>::empty()) =~= Seq::<Seq<char>>::empty());
    assert(strip_cr(target) == target);
    assert(lines(target + nl) =~= seq![target]);
    if contents.len() == 0 {
        assert(written =~= target + nl);
        assert(a == contents);
        assert(lines(a) =~= Seq::<Seq<char>>::empty());
    } else {
        assert(written =~= a + nl + (target + nl));
        lemma_lines_split(a, target + nl);
        lemma_trim_end_prefix(contents);
        if a.len() > 0 {
            assert(a.last() != '\n' && a.last() != '\r');
            lemma_lines_final_newline(a);
            assert(lines(written) =~= lines(a).push(target));
        } else {
            assert(a =~= Seq::<char>::empty());
            assert(lines(a) =~= Seq::<Seq<char>>::empty());
        }
    }
}

/// When the file has a `<field> = ` line, syncing rewrites it in place:
/// the written text has as many lines as the old one, every line that
/// started with `<field> = ` is now `target`, and every other line is
/// kept (less the `\r` of a `\r\n` ending).
pub proof fn lemma_sync_field_replaces_in_place(
    contents: Seq<char>,
    field: Seq<char>,
    target: Seq<char>,
    written: Seq<char>,
)
    requires
        spec_sync_field_line(contents, field, target) == Some(written),
        has_line_starting(lines(contents), field + " = "@),
        !target.contains('\n'),
        target.len() > 0,
        target.last() != '\r',
    ensures
        written.last() == '\n',
        lines(written).len() == lines(contents).len(),
        forall|i: int|
            0 <= i < lines(contents).len() ==> #[trigger] lines(written)[i] == if starts_with(
                trim_start(lines(contents)[i]),
                field + " = "@,
            ) {
                target
            } else {
                strip_cr(lines(contents)[i])
            },
{
    let ls = lines(contents);
    let prefix = field + " = "@;
    let r = replace_lines(ls, prefix, target);
    let nl = seq!['\n'];
    assert(written == join_lines(r) + nl);
    lemma_lines_have_no_newline(contents);
    assert forall|j: int| 0 <= j < r.len() implies !(#[trigger] r[j]).contains('\n') by {
        if !starts_with(trim_start(ls[j]), prefix) {
            assert(r[j] == ls[j]);
        }
    }
    lemma_lines_of_terminated_join(r);
    assert(strip_cr(target) == target);
    assert forall|i: int| 0 <= i < ls.len() implies #[trigger] lines(written)[i] == if starts_with(
        trim_start(ls[i]),
        prefix,
    ) {
        target
    } else {
        strip_cr(ls[i])
    } by {
        assert(lines(written)[i] == strip_cr(r[i]));
    }
}

/// When the file has no `version = ` line, the version line is put first
/// and the old text follows unchanged: the written text is the line, `\n`,
/// then `contents`, and its lines are the version line followed by the
/// lines of `contents`.
pub proof fn lemma_sync_version_prepends(contents: Seq<char>, version: Seq<char>, written: Seq<char>)
    requires
        spec_sync_version(Some(contents), version) == Some(written),
        !has_line_starting(lines(contents), "version = "@),
        !version.contains('\n'),
    ensures
        written.take(version_line(version).len() + 1int) == version_line(version) + seq!['\n'],
        written.skip(version_line(version).len() + 1int) == contents,
        lines(written) == seq![version_line(version)] + lines(contents),
{
    reveal_strlit("version = \"");
    reveal_strlit("\"");
    let target = version_line(version);
    let nl = seq!['\n'];
    assert(written == target + nl + contents);
    assert(written.take(target.len() + 1int) =~= target + nl);
    assert(written.skip(target.len() + 1int) =~= contents);
    assert(!target.contains('\n')) by {
        if target.contains('\n') {
            let j = choose|j: int| 0 <= j < target.len() && target[j] == '\n';
            if j >= 11 && j < 11 + version.len() {
                assert(version[j - 11] == target[j]);
            }
        }
    }
    assert(target.last() == '"');
    lemma_lines_cons(target, contents);
}

/// When the file has a `version = ` line, every such line is rewritten in
/// place and every other line is kept: the lines of the written text are
/// those of `contents` with each version line replaced (the others less the
/// `\r` of a `\r\n` ending, except the last), and only a final empty line
/// is not read back, as the lines are joined with no final newline.
pub proof fn lemma_sync_version_replaces_in_place(
    contents: Seq<char>,
    version: Seq<char>,
    written: Seq<char>,
)
    requires
        spec_sync_version(Some(contents), version) == Some(written),
        has_line_starting(lines(contents), "version = "@),
        !version.contains('\n'),
    ensures
        lines(contents).len() > 0,
        lines(written).len() == if lines(contents).last().len() == 0 {
            lines(contents).len() - 1
        } else {
            lines(contents).len() as int
        },
        forall|i: int|
            0 <= i < lines(written).len() ==> #[trigger] lines(written)[i] == if starts_with(
                trim_start(lines(contents)[i]),
                "version = "@,
            ) {
                version_line(version)
            } else if i < lines(contents).len() - 1 {
                strip_cr(lines(contents)[i])
            } else {
                lines(contents)[i]
            },
{
    reveal_strlit("version = \"");
    reveal_strlit("\"");
    let ls = lines(contents);
    let prefix = "version = "@;
    let target = version_line(version);
    let r = replace_lines(ls, prefix, target);
    assert(written == join_lines(r));
    assert(!target.contains('\n')) by {
        if target.contains('\n') {
            let j = choose|j: int| 0 <= j < target.len() && target[j] == '\n';
            if j >= 11 && j < 11 + version.len() {
                assert(version[j - 11] == target[j]);
            }
        }
    }
    assert(target.last() == '"');
    assert(strip_cr(target) == target);
    lemma_lines_have_no_newline(contents);
    assert forall|j: int| 0 <= j < r.len() implies !(#[trigger] r[j]).contains('\n') by {
        if !starts_with(trim_start(ls[j]), prefix) {
            assert(r[j] == ls[j]);
        }
    }
    let i0 = choose|i: int| 0 <= i < ls.len() && starts_with(#[trigger] trim_start(ls[i]), prefix);
    assert(ls.len() > 0);
    lemma_lines_of_join(r);
    let n = ls.len();
    if starts_with(trim_start(ls[n - 1]), prefix) {
        assert(r.last() == target);
        reveal_strlit("version = ");
        assert(ls.last().len() > 0) by {
            if ls.last().len() == 0 {
                assert(trim_start(ls.last()) =~= ls.last());
            }
        }
    } else {
        assert(r.last() == ls.last());
    }
}

} // verus!
