//! The mathematical model of the parser: a character-level state
//! machine for values, and the line-level and file-level functions
//! built on it. The executable parser is proved to return exactly what
//! these functions say.
use vstd::prelude::*;
use crate::chars::{is_ws_char, is_key_start_char, is_key_char, alnum_char};
use crate::table::resolve_name;

verus! {

/// Whether a `$` substitution is being scanned, and in which form:
/// `Block` for a bare `$NAME`, `Braced` for `${NAME}`.
#[derive(Clone, Copy, PartialEq, Eq, Structural)]
pub enum SubstMode {
    Inactive,
    Block,
    Braced,
}

/// The scanner state of the value parser between two characters.
pub ghost struct ValueState {
    pub strong_quote: bool,
    pub weak_quote: bool,
    pub escaped: bool,
    pub expecting_end: bool,
    pub mode: SubstMode,
    pub name: Seq<char>,
    pub out: Seq<char>,
}

pub ghost enum StepOutcome {
    /// Scanning goes on in the given state.
    Next(ValueState),
    /// A trailing comment begins: scanning stops, the state is final.
    Halt(ValueState),
    /// The character at the given index is a parse error.
    Reject(int),
}

pub ghost enum ValueOutcome {
    Emit(Seq<char>),
    Reject(int),
}

pub open spec fn init_value_state() -> ValueState {
    ValueState {
        strong_quote: false,
        weak_quote: false,
        escaped: false,
        expecting_end: false,
        mode: SubstMode::Inactive,
        name: Seq::empty(),
        out: Seq::empty(),
    }
}

/// One character of the value scanner. The cases are tried in priority
/// order; a character falls under exactly one.
pub open spec fn value_step(
    st: ValueState,
    c: char,
    i: int,
    env: Map<Seq<char>, Seq<char>>,
    tbl: Map<Seq<char>, Option<Seq<char>>>,
) -> StepOutcome {
    if st.expecting_end {
        if c == ' ' || c == '\t' {
            StepOutcome::Next(st)
        } else if c == '#' {
            StepOutcome::Halt(st)
        } else {
            StepOutcome::Reject(i)
        }
    } else if st.escaped {
        if c == '\\' || c == '\'' || c == '"' || c == '$' || c == ' ' {
            StepOutcome::Next(ValueState { escaped: false, out: st.out.push(c), ..st })
        } else if c == 'n' {
            StepOutcome::Next(ValueState { escaped: false, out: st.out.push('\n'), ..st })
        } else {
            StepOutcome::Reject(i)
        }
    } else if st.strong_quote {
        if c == '\'' {
            StepOutcome::Next(ValueState { strong_quote: false, ..st })
        } else {
            StepOutcome::Next(ValueState { out: st.out.push(c), ..st })
        }
    } else if !(st.mode is Inactive) {
        if alnum_char(c) {
            StepOutcome::Next(ValueState { name: st.name.push(c), ..st })
        } else if st.mode is Block {
            if c == '{' && st.name.len() == 0 {
                StepOutcome::Next(ValueState { mode: SubstMode::Braced, ..st })
            } else {
                let flushed = st.out + resolve_name(env, tbl, st.name);
                if c == '$' {
                    StepOutcome::Next(
                        ValueState {
                            out: flushed,
                            name: Seq::empty(),
                            mode: SubstMode::Block,
                            ..st
                        },
                    )
                } else {
                    StepOutcome::Next(
                        ValueState {
                            out: flushed.push(c),
                            name: Seq::empty(),
                            mode: SubstMode::Inactive,
                            ..st
                        },
                    )
                }
            }
        } else {
            if c == '}' {
                StepOutcome::Next(
                    ValueState {
                        out: st.out + resolve_name(env, tbl, st.name),
                        name: Seq::empty(),
                        mode: SubstMode::Inactive,
                        ..st
                    },
                )
            } else {
                StepOutcome::Next(ValueState { name: st.name.push(c), ..st })
            }
        }
    } else if c == '$' {
        StepOutcome::Next(ValueState { mode: SubstMode::Block, ..st })
    } else if st.weak_quote {
        if c == '"' {
            StepOutcome::Next(ValueState { weak_quote: false, ..st })
        } else if c == '\\' {
            StepOutcome::Next(ValueState { escaped: true, ..st })
        } else {
            StepOutcome::Next(ValueState { out: st.out.push(c), ..st })
        }
    } else if c == '\'' {
        StepOutcome::Next(ValueState { strong_quote: true, ..st })
    } else if c == '"' {
        StepOutcome::Next(ValueState { weak_quote: true, ..st })
    } else if c == '\\' {
        StepOutcome::Next(ValueState { escaped: true, ..st })
    } else if c == ' ' || c == '\t' {
        StepOutcome::Next(ValueState { expecting_end: true, ..st })
    } else {
        StepOutcome::Next(ValueState { out: st.out.push(c), ..st })
    }
}

/// End of input: an open `${`, `'` or `"` is an error, reported at the
/// last index; otherwise a pending bare name is flushed and the output
/// stands.
pub open spec fn value_finalize(
    st: ValueState,
    input_len: int,
    env: Map<Seq<char>, Seq<char>>,
    tbl: Map<Seq<char>, Option<Seq<char>>>,
) -> ValueOutcome {
    if st.mode is Braced || st.strong_quote || st.weak_quote {
        ValueOutcome::Reject(
            if input_len == 0 {
                0
            } else {
                input_len - 1
            },
        )
    } else {
        ValueOutcome::Emit(st.out + resolve_name(env, tbl, st.name))
    }
}

/// Runs the value scanner over `s` from index `i` in state `st`.
pub open spec fn value_run(
    s: Seq<char>,
    i: int,
    st: ValueState,
    env: Map<Seq<char>, Seq<char>>,
    tbl: Map<Seq<char>, Option<Seq<char>>>,
) -> ValueOutcome
    decreases s.len() - i,
{
    if i < 0 || i >= s.len() {
        value_finalize(st, s.len() as int, env, tbl)
    } else {
        match value_step(st, s[i], i, env, tbl) {
            StepOutcome::Next(st2) => value_run(s, i + 1, st2, env, tbl),
            StepOutcome::Halt(st2) => value_finalize(st2, s.len() as int, env, tbl),
            StepOutcome::Reject(j) => ValueOutcome::Reject(j),
        }
    }
}

/// What the value parser yields for the text `s`, with substitution
/// names resolved against `env` and `tbl`.
pub open spec fn spec_parse_value(
    s: Seq<char>,
    env: Map<Seq<char>, Seq<char>>,
    tbl: Map<Seq<char>, Option<Seq<char>>>,
) -> ValueOutcome {
    value_run(s, 0, init_value_state(), env, tbl)
}

/// `s` with its trailing whitespace removed.
pub open spec fn spec_trim_end(s: Seq<char>) -> Seq<char>
    decreases s.len(),
{
    if s.len() > 0 && is_ws_char(s.last()) {
        spec_trim_end(s.drop_last())
    } else {
        s
    }
}

/// The first index at or after `i` holding a non-whitespace character,
/// or the length of `s`.
pub open spec fn spec_skip_ws(s: Seq<char>, i: int) -> int
    decreases s.len() - i,
{
    if i < 0 || i >= s.len() {
        s.len() as int
    } else if is_ws_char(s[i]) {
        spec_skip_ws(s, i + 1)
    } else {
        i
    }
}

/// The first index at or after `i` holding a character that cannot
/// continue a key, or the length of `s`.
pub open spec fn spec_key_end(s: Seq<char>, i: int) -> int
    decreases s.len() - i,
{
    if i < 0 || i >= s.len() {
        s.len() as int
    } else if is_key_char(s[i]) {
        spec_key_end(s, i + 1)
    } else {
        i
    }
}

pub open spec fn export_seq() -> Seq<char> {
    seq!['e', 'x', 'p', 'o', 'r', 't']
}

pub ghost enum LineOutcome {
    /// A blank or comment line: no assignment, no error.
    Skip,
    /// An assignment of the value to the key; the third component is
    /// what the running table records for the key.
    Assign(Seq<char>, Seq<char>, Option<Seq<char>>),
    /// A parse error: the reported text and a character offset into it.
    Reject(Seq<char>, int),
}

/// The rest of a line after its `=`: skip whitespace, treat an empty or
/// comment-only remainder as an empty value, else run the value parser
/// on the remainder.
pub open spec fn spec_parse_tail(
    line: Seq<char>,
    t: Seq<char>,
    key: Seq<char>,
    after_eq: int,
    env: Map<Seq<char>, Seq<char>>,
    tbl: Map<Seq<char>, Option<Seq<char>>>,
) -> LineOutcome {
    let v0 = spec_skip_ws(t, after_eq);
    if v0 >= t.len() || t[v0] == '#' {
        LineOutcome::Assign(key, Seq::empty(), Option::None)
    } else {
        let vpart = t.subrange(v0, t.len() as int);
        match spec_parse_value(vpart, env, tbl) {
            ValueOutcome::Emit(v) => LineOutcome::Assign(key, v, Option::Some(v)),
            ValueOutcome::Reject(j) => LineOutcome::Reject(vpart, j),
        }
    }
}

/// What the line parser yields for `line`: no assignment for a blank or
/// comment line; else a key (with an optional `export` prefix), an `=`,
/// and a value. Error offsets count characters from the start of the
/// line; a value error reports the value text and counts within it.
pub open spec fn spec_parse_line(
    line: Seq<char>,
    env: Map<Seq<char>, Seq<char>>,
    tbl: Map<Seq<char>, Option<Seq<char>>>,
) -> LineOutcome {
    let t = spec_trim_end(line);
    let i0 = spec_skip_ws(t, 0);
    if i0 >= t.len() || t[i0] == '#' {
        LineOutcome::Skip
    } else if !is_key_start_char(t[i0]) {
        LineOutcome::Reject(line, i0)
    } else {
        let k1_end = spec_key_end(t, i0 + 1);
        let key1 = t.subrange(i0, k1_end);
        let j1 = spec_skip_ws(t, k1_end);
        let eq1 = j1 < t.len() && t[j1] == '=';
        if key1 == export_seq() && !eq1 {
            if j1 >= t.len() || !is_key_start_char(t[j1]) {
                LineOutcome::Reject(line, j1)
            } else {
                let k2_end = spec_key_end(t, j1 + 1);
                let key2 = t.subrange(j1, k2_end);
                let j2 = spec_skip_ws(t, k2_end);
                if !(j2 < t.len() && t[j2] == '=') {
                    LineOutcome::Reject(line, j2)
                } else {
                    spec_parse_tail(line, t, key2, j2 + 1, env, tbl)
                }
            }
        } else if !eq1 {
            LineOutcome::Reject(line, j1)
        } else {
            spec_parse_tail(line, t, key1, j1 + 1, env, tbl)
        }
    }
}

pub ghost enum FileOutcome {
    Done(Map<Seq<char>, Seq<char>>),
    Reject(Seq<char>, int),
}

/// Folds the line parser over `lines` from index `i`, threading the
/// running table `tbl` and the output mapping `out`; the first error
/// aborts the whole parse.
pub open spec fn spec_parse_lines(
    lines: Seq<Seq<char>>,
    env: Map<Seq<char>, Seq<char>>,
    i: int,
    tbl: Map<Seq<char>, Option<Seq<char>>>,
    out: Map<Seq<char>, Seq<char>>,
) -> FileOutcome
    decreases lines.len() - i,
{
    if i < 0 || i >= lines.len() {
        FileOutcome::Done(out)
    } else {
        match spec_parse_line(lines[i], env, tbl) {
            LineOutcome::Skip => spec_parse_lines(lines, env, i + 1, tbl, out),
            LineOutcome::Assign(k, v, stored) => spec_parse_lines(
                lines,
                env,
                i + 1,
                tbl.insert(k, stored),
                out.insert(k, v),
            ),
            LineOutcome::Reject(l, at) => FileOutcome::Reject(l, at),
        }
    }
}

} // verus!
