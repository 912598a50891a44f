//! The executable parser: the value scanner, the line parser and the
//! whole-file fold, each proved to return exactly what the model in
//! `model` says.
use vstd::prelude::*;
use crate::chars::{is_ws, is_key_start, is_key_start_char, is_key_cont, is_alnum, str_to_chars,
    str_eq, chars_to_string, subvec};
use crate::errors::Error;
use crate::model::{SubstMode, ValueState, StepOutcome, ValueOutcome, LineOutcome, FileOutcome,
    value_step, value_finalize, value_run, spec_parse_value, spec_trim_end,
    spec_skip_ws, spec_key_end, export_seq, spec_parse_line, spec_parse_lines};
use crate::table::{EnvMap, SubstTable, apply_substitution};

verus! {

broadcast use vstd::string::group_string_axioms;

pub open spec fn st_of(
    strong: bool,
    weak: bool,
    esc: bool,
    exp: bool,
    mode: SubstMode,
    name: Seq<char>,
    out: Seq<char>,
) -> ValueState {
    ValueState {
        strong_quote: strong,
        weak_quote: weak,
        escaped: esc,
        expecting_end: exp,
        mode: mode,
        name: name,
        out: out,
    }
}

/// The end-of-scan half of the value parser: reject an open quote or
/// `${`, else flush the pending name and emit.
fn value_finish(
    strong: bool,
    weak: bool,
    esc: bool,
    exp: bool,
    mode: SubstMode,
    name: Vec<char>,
    out: Vec<char>,
    n: usize,
    env: &EnvMap,
    tbl: &SubstTable,
) -> (r: Result<Vec<char>, usize>)
    ensures
        match r {
            Result::Ok(v) => value_finalize(st_of(strong, weak, esc, exp, mode, name@, out@), n as int, env@, tbl@)
                == ValueOutcome::Emit(v@),
            Result::Err(i) => value_finalize(st_of(strong, weak, esc, exp, mode, name@, out@), n as int, env@, tbl@)
                == ValueOutcome::Reject(i as int),
        },
{
    if mode == SubstMode::Braced || strong || weak {
        Result::Err(if n == 0 { 0 } else { n - 1 })
    } else {
        let mut flushed = out;
        apply_substitution(env, tbl, &name, &mut flushed);
        Result::Ok(flushed)
    }
}

/// Runs the value scanner over `input`, yielding the resolved value or
/// the index of the offending character.
pub fn parse_value_chars(input: &Vec<char>, env: &EnvMap, tbl: &SubstTable) -> (r: Result<
    Vec<char>,
    usize,
>)
    ensures
        match r {
            Result::Ok(v) => spec_parse_value(input@, env@, tbl@) == ValueOutcome::Emit(v@),
            Result::Err(i) => spec_parse_value(input@, env@, tbl@) == ValueOutcome::Reject(i as int),
        },
{
    let n = input.len();
    let mut strong_quote = false;
    let mut weak_quote = false;
    let mut escaped = false;
    let mut expecting_end = false;
    let mut mode = SubstMode::Inactive;
    let mut name: Vec<char> = Vec::new();
    let mut output: Vec<char> = Vec::new();
    let mut i: usize = 0;
    while i < n
        invariant
            i <= n,
            n == input@.len(),
            value_run(
                input@,
                i as int,
                st_of(strong_quote, weak_quote, escaped, expecting_end, mode, name@, output@),
                env@,
                tbl@,
            ) == spec_parse_value(input@, env@, tbl@),
        decreases n - i,
    {
        let ghost st0 = st_of(
            strong_quote,
            weak_quote,
            escaped,
            expecting_end,
            mode,
            name@,
            output@,
        );
        let c = input[i];
        if expecting_end {
            if c == ' ' || c == '\t' {
                proof {
                    assert(value_step(st0, c, i as int, env@, tbl@) == StepOutcome::Next(st0));
                }
            } else if c == '#' {
                proof {
                    assert(value_step(st0, c, i as int, env@, tbl@) == StepOutcome::Halt(st0));
                }
                return value_finish(
                    strong_quote,
                    weak_quote,
                    escaped,
                    expecting_end,
                    mode,
                    name,
                    output,
                    n,
                    env,
                    tbl,
                );
            } else {
                proof {
                    assert(value_step(st0, c, i as int, env@, tbl@) == StepOutcome::Reject(
                        i as int,
                    ));
                }
                return Result::Err(i);
            }
        } else if escaped {
            if c == '\\' || c == '\'' || c == '"' || c == '$' || c == ' ' {
                output.push(c);
                escaped = false;
            } else if c == 'n' {
                output.push('\n');
                escaped = false;
            } else {
                return Result::Err(i);
            }
        } else if strong_quote {
            if c == '\'' {
                strong_quote = false;
            } else {
                output.push(c);
            }
        } else if mode != SubstMode::Inactive {
            if is_alnum(c) {
                name.push(c);
            } else if mode == SubstMode::Block {
                if c == '{' && name.len() == 0 {
                    mode = SubstMode::Braced;
                } else {
                    apply_substitution(env, tbl, &name, &mut output);
                    name = Vec::new();
                    if c == '$' {
                        mode = SubstMode::Block;
                    } else {
                        mode = SubstMode::Inactive;
                        output.push(c);
                    }
                }
            } else {
                if c == '}' {
                    apply_substitution(env, tbl, &name, &mut output);
                    name = Vec::new();
                    mode = SubstMode::Inactive;
                } else {
                    name.push(c);
                }
            }
        } else if c == '$' {
            mode = SubstMode::Block;
        } else if weak_quote {
            if c == '"' {
                weak_quote = false;
            } else if c == '\\' {
                escaped = true;
            } else {
                output.push(c);
            }
        } else if c == '\'' {
            strong_quote = true;
        } else if c == '"' {
            weak_quote = true;
        } else if c == '\\' {
            escaped = true;
        } else if c == ' ' || c == '\t' {
            expecting_end = true;
        } else {
            output.push(c);
        }
        proof {
            let st1 = st_of(
                strong_quote,
                weak_quote,
                escaped,
                expecting_end,
                mode,
                name@,
                output@,
            );
            assert(value_step(st0, input@[i as int], i as int, env@, tbl@) == StepOutcome::Next(
                st1,
            ));
        }
        i = i + 1;
    }
    value_finish(
        strong_quote,
        weak_quote,
        escaped,
        expecting_end,
        mode,
        name,
        output,
        n,
        env,
        tbl,
    )
}

/// Interprets `input` as a value expression, applying quoting, escaping
/// and substitution against `env` and the earlier assignments in `tbl`.
pub fn parse_value(input: &str, env: &EnvMap, tbl: &SubstTable) -> (r: Result<String, Error>)
    ensures
        match spec_parse_value(input@, env@, tbl@) {
            ValueOutcome::Emit(v) => r matches Result::Ok(s) && s@ == v,
            ValueOutcome::Reject(j) => r matches Result::Err(e) && e matches Error::LineParse(l, at)
                && l@ == input@ && at as int == j,
        },
{
    let chars = str_to_chars(input);
    match parse_value_chars(&chars, env, tbl) {
        Result::Ok(v) => Result::Ok(chars_to_string(&v)),
        Result::Err(i) => Result::Err(Error::LineParse(input.to_owned(), i)),
    }
}

/// A cursor over one line: the line as given (for error reports), its
/// trailing-whitespace-trimmed characters, and the position reached.
pub struct LineParser {
    original: String,
    chars: Vec<char>,
    pos: usize,
}

impl LineParser {
    pub closed spec fn original_seq(&self) -> Seq<char> {
        self.original@
    }

    pub closed spec fn trimmed(&self) -> Seq<char> {
        self.chars@
    }

    pub closed spec fn cursor(&self) -> int {
        self.pos as int
    }

    pub open spec fn wf(&self) -> bool {
        self.trimmed() == spec_trim_end(self.original_seq()) && 0 <= self.cursor()
            <= self.trimmed().len()
    }

    pub fn new(line: &str) -> (r: LineParser)
        ensures
            r.wf(),
            r.original_seq() == line@,
            r.cursor() == 0,
    {
        let mut chars = str_to_chars(line);
        while chars.len() > 0 && is_ws(chars[chars.len() - 1])
            invariant
                spec_trim_end(chars@) == spec_trim_end(line@),
            decreases chars@.len(),
        {
            proof {
                assert(chars@.drop_last() =~= chars@.subrange(0, chars@.len() - 1));
            }
            chars.pop();
        }
        LineParser { original: line.to_owned(), chars, pos: 0 }
    }

    /// A parse error at the position reached, reporting the line as
    /// given.
    pub fn err(&self) -> (e: Error)
        ensures
            e matches Error::LineParse(l, at) && l@ == self.original_seq() && at as int
                == self.cursor(),
    {
        Error::LineParse(self.original.clone(), self.pos)
    }

    pub fn skip_whitespace(&mut self)
        requires
            old(self).wf(),
        ensures
            final(self).wf(),
            final(self).original_seq() == old(self).original_seq(),
            final(self).trimmed() == old(self).trimmed(),
            final(self).cursor() == spec_skip_ws(old(self).trimmed(), old(self).cursor()),
    {
        while self.pos < self.chars.len() && is_ws(self.chars[self.pos])
            invariant
                self.original@ == old(self).original@,
                self.chars@ == old(self).chars@,
                old(self).pos <= self.pos <= self.chars@.len(),
                spec_skip_ws(self.chars@, self.pos as int) == spec_skip_ws(
                    self.chars@,
                    old(self).pos as int,
                ),
            decreases self.chars@.len() - self.pos,
        {
            self.pos = self.pos + 1;
        }
    }

    /// Scans a key token: a key-start character followed by the longest
    /// run of key characters; an error at the position reached when the
    /// first character cannot start a key.
    pub fn parse_key(&mut self) -> (r: Result<String, Error>)
        requires
            old(self).wf(),
        ensures
            final(self).wf(),
            final(self).original_seq() == old(self).original_seq(),
            final(self).trimmed() == old(self).trimmed(),
            match r {
                Result::Ok(k) => ({
                    &&& old(self).cursor() < old(self).trimmed().len()
                    &&& is_key_start_char(old(self).trimmed()[old(self).cursor()])
                    &&& final(self).cursor() == spec_key_end(
                        old(self).trimmed(),
                        old(self).cursor() + 1,
                    )
                    &&& k@ == old(self).trimmed().subrange(
                        old(self).cursor(),
                        final(self).cursor(),
                    )
                }),
                Result::Err(e) => ({
                    &&& (old(self).cursor() >= old(self).trimmed().len() || !is_key_start_char(
                        old(self).trimmed()[old(self).cursor()],
                    ))
                    &&& e matches Error::LineParse(l, at) && l@ == old(self).original_seq()
                        && at as int == old(self).cursor()
                    &&& final(self).cursor() == old(self).cursor()
                }),
            },
    {
        if !(self.pos < self.chars.len() && is_key_start(self.chars[self.pos])) {
            return Result::Err(self.err());
        }
        let start = self.pos;
        self.pos = self.pos + 1;
        while self.pos < self.chars.len() && is_key_cont(self.chars[self.pos])
            invariant
                self.original@ == old(self).original@,
                self.chars@ == old(self).chars@,
                start as int + 1 <= self.pos as int <= self.chars@.len(),
                spec_key_end(self.chars@, self.pos as int) == spec_key_end(
                    self.chars@,
                    start as int + 1,
                ),
            decreases self.chars@.len() - self.pos,
        {
            self.pos = self.pos + 1;
        }
        let key_chars = subvec(&self.chars, start, self.pos);
        Result::Ok(chars_to_string(&key_chars))
    }

    /// Consumes one `=`; an error at the position reached when the next
    /// character is not `=`.
    pub fn expect_equal(&mut self) -> (r: Result<(), Error>)
        requires
            old(self).wf(),
        ensures
            final(self).wf(),
            final(self).original_seq() == old(self).original_seq(),
            final(self).trimmed() == old(self).trimmed(),
            match r {
                Result::Ok(u) => ({
                    &&& old(self).cursor() < old(self).trimmed().len()
                    &&& old(self).trimmed()[old(self).cursor()] == '='
                    &&& final(self).cursor() == old(self).cursor() + 1
                }),
                Result::Err(e) => ({
                    &&& !(old(self).cursor() < old(self).trimmed().len() && old(self).trimmed()[
                        old(self).cursor()
                    ] == '=')
                    &&& e matches Error::LineParse(l, at) && l@ == old(self).original_seq()
                        && at as int == old(self).cursor()
                    &&& final(self).cursor() == old(self).cursor()
                }),
            },
    {
        if !(self.pos < self.chars.len() && self.chars[self.pos] == '=') {
            return Result::Err(self.err());
        }
        self.pos = self.pos + 1;
        Result::Ok(())
    }

    /// Parses the whole line: a blank or comment line yields no
    /// assignment; else a key, an optional `export` prefix, an `=` and a
    /// value, recording the assignment in `tbl`.
    pub fn parse_line(&mut self, env: &EnvMap, tbl: &mut SubstTable) -> (r: Result<
        Option<(String, String)>,
        Error,
    >)
        requires
            old(self).wf(),
            old(self).cursor() == 0,
        ensures
            match spec_parse_line(old(self).original_seq(), env@, old(tbl)@) {
                LineOutcome::Skip => r matches Result::Ok(o) && o matches Option::None
                    && final(tbl)@ == old(tbl)@,
                LineOutcome::Assign(k, v, stored) => r matches Result::Ok(o) && o matches
                    Option::Some((rk, rv)) && rk@ == k && rv@ == v && final(tbl)@
                    == old(tbl)@.insert(k, stored),
                LineOutcome::Reject(l, at) => r matches Result::Err(e) && e matches
                    Error::LineParse(el, ei) && el@ == l && ei as int == at && final(tbl)@
                    == old(tbl)@,
            },
    {
        let ghost t = self.chars@;
        self.skip_whitespace();
        if self.pos == self.chars.len() || self.chars[self.pos] == '#' {
            return Result::Ok(Option::None);
        }
        let mut key = match self.parse_key() {
            Result::Ok(k) => k,
            Result::Err(e) => { return Result::Err(e); },
        };
        self.skip_whitespace();
        let is_export = str_eq(key.as_str(), "export");
        proof {
            reveal_strlit("export");
            assert("export"@ =~= export_seq());
        }
        if is_export {
            let first_try = self.expect_equal();
            if first_try.is_err() {
                key = match self.parse_key() {
                    Result::Ok(k) => k,
                    Result::Err(e) => { return Result::Err(e); },
                };
                self.skip_whitespace();
                match self.expect_equal() {
                    Result::Ok(u) => {},
                    Result::Err(e) => { return Result::Err(e); },
                }
            }
        } else {
            match self.expect_equal() {
                Result::Ok(u) => {},
                Result::Err(e) => { return Result::Err(e); },
            }
        }
        self.skip_whitespace();
        if self.pos == self.chars.len() || self.chars[self.pos] == '#' {
            tbl.insert(key.clone(), Option::None);
            return Result::Ok(Option::Some((key, String::new())));
        }
        let vpart = subvec(&self.chars, self.pos, self.chars.len());
        match parse_value_chars(&vpart, env, tbl) {
            Result::Ok(v) => {
                let value = chars_to_string(&v);
                tbl.insert(key.clone(), Option::Some(value.clone()));
                Result::Ok(Option::Some((key, value)))
            },
            Result::Err(idx) => Result::Err(Error::LineParse(chars_to_string(&vpart), idx)),
        }
    }
}

/// Parses one line against `env` and the assignments of earlier lines
/// in `tbl`, recording any assignment it makes in `tbl`.
pub fn parse_line(line: &str, env: &EnvMap, tbl: &mut SubstTable) -> (r: Result<
    Option<(String, String)>,
    Error,
>)
    ensures
        match spec_parse_line(line@, env@, old(tbl)@) {
            LineOutcome::Skip => r matches Result::Ok(o) && o matches Option::None && final(tbl)@
                == old(tbl)@,
            LineOutcome::Assign(k, v, stored) => r matches Result::Ok(o) && o matches Option::Some(
                (rk, rv),
            ) && rk@ == k && rv@ == v && final(tbl)@ == old(tbl)@.insert(k, stored),
            LineOutcome::Reject(l, at) => r matches Result::Err(e) && e matches Error::LineParse(
                el,
                ei,
            ) && el@ == l && ei as int == at && final(tbl)@ == old(tbl)@,
        },
{
    let mut parser = LineParser::new(line);
    parser.parse_line(env, tbl)
}

/// Parses a whole file, given as its lines in order: folds every
/// assignment into the output mapping, against a fresh table, aborting
/// on the first error.
pub fn parse_lines(lines: &Vec<String>, env: &EnvMap) -> (r: Result<EnvMap, Error>)
    ensures
        match spec_parse_lines(
            lines.deep_view(),
            env@,
            0,
            Map::<Seq<char>, Option<Seq<char>>>::empty(),
            Map::<Seq<char>, Seq<char>>::empty(),
        ) {
            FileOutcome::Done(m) => r matches Result::Ok(em) && em@ == m,
            FileOutcome::Reject(l, at) => r matches Result::Err(e) && e matches Error::LineParse(
                el,
                ei,
            ) && el@ == l && ei as int == at,
        },
{
    let mut tbl = SubstTable::new();
    let mut out = EnvMap::new();
    let n = lines.len();
    let mut i: usize = 0;
    while i < n
        invariant
            i <= n,
            n == lines@.len(),
            spec_parse_lines(lines.deep_view(), env@, i as int, tbl@, out@) == spec_parse_lines(
                lines.deep_view(),
                env@,
                0,
                Map::<Seq<char>, Option<Seq<char>>>::empty(),
                Map::<Seq<char>, Seq<char>>::empty(),
            ),
        decreases n - i,
    {
        let line = vstd::std_specs::vec::vec_index(lines, i);
        proof {
            assert(lines.deep_view()[i as int] == lines@[i as int]@);
        }
        match parse_line(line.as_str(), env, &mut tbl) {
            Result::Ok(o) => {
                match o {
                    Option::Some(kv) => {
                        let (k, v) = kv;
                        out.insert(k, v);
                    },
                    Option::None => {},
                }
            },
            Result::Err(e) => { return Result::Err(e); },
        }
        i = i + 1;
    }
    Result::Ok(out)
}

} // verus!
