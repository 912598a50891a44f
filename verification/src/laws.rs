//! The laws of the parser: general properties, each stated over the
//! model and proved, with the scanning lemmas they rest on.
use vstd::prelude::*;
use crate::chars::{is_ws_char, is_key_start_char, is_key_char, is_ascii_alnum_char, alnum_char};
use crate::model::{SubstMode, ValueState, StepOutcome, ValueOutcome, LineOutcome, FileOutcome,
    init_value_state, value_step, value_finalize, value_run, spec_parse_value, spec_trim_end,
    spec_skip_ws, spec_key_end, export_seq, spec_parse_line, spec_parse_lines};
use crate::table::resolve_name;

verus! {

/// A key token: a key-start character followed by key characters.
pub open spec fn valid_key(k: Seq<char>) -> bool {
    k.len() > 0 && is_key_start_char(k[0]) && (forall|i: int| 1 <= i < k.len() ==> is_key_char(
        #[trigger] k[i],
    ))
}

/// A value character with no role of its own: not whitespace, not a
/// quote, not a backslash, not a substitution opener.
pub open spec fn plain_char(c: char) -> bool {
    c != ' ' && c != '\t' && c != '\'' && c != '"' && c != '\\' && c != '$'
}

/// Neither map carries an entry under the empty name, as no assignment
/// and no real process environment can produce one.
pub open spec fn no_empty_name(
    env: Map<Seq<char>, Seq<char>>,
    tbl: Map<Seq<char>, Option<Seq<char>>>,
) -> bool {
    !env.contains_key(Seq::empty()) && !tbl.contains_key(Seq::empty())
}

pub proof fn lemma_trim_end_noop(s: Seq<char>)
    requires
        s.len() == 0 || !is_ws_char(s.last()),
    ensures
        spec_trim_end(s) == s,
{
}

pub proof fn lemma_skip_ws_fixed(s: Seq<char>, i: int, e: int)
    requires
        0 <= i <= e <= s.len(),
        forall|j: int| i <= j < e ==> is_ws_char(#[trigger] s[j]),
        e == s.len() || !is_ws_char(s[e]),
    ensures
        spec_skip_ws(s, i) == e,
    decreases e - i,
{
    if i < e {
        lemma_skip_ws_fixed(s, i + 1, e);
    }
}

pub proof fn lemma_key_end_fixed(s: Seq<char>, i: int, e: int)
    requires
        0 <= i <= e <= s.len(),
        forall|j: int| i <= j < e ==> is_key_char(#[trigger] s[j]),
        e == s.len() || !is_key_char(s[e]),
    ensures
        spec_key_end(s, i) == e,
    decreases e - i,
{
    if i < e {
        lemma_key_end_fixed(s, i + 1, e);
    }
}

/// In the neutral state, a run of plain characters is copied verbatim.
pub proof fn lemma_run_plain_seg(
    s: Seq<char>,
    i: int,
    m: int,
    st: ValueState,
    env: Map<Seq<char>, Seq<char>>,
    tbl: Map<Seq<char>, Option<Seq<char>>>,
)
    requires
        0 <= i <= m <= s.len(),
        !st.expecting_end,
        !st.escaped,
        !st.strong_quote,
        !st.weak_quote,
        st.mode is Inactive,
        forall|j: int| i <= j < m ==> plain_char(#[trigger] s[j]),
    ensures
        value_run(s, i, st, env, tbl) == value_run(
            s,
            m,
            (ValueState { out: st.out + s.subrange(i, m), ..st }),
            env,
            tbl,
        ),
    decreases m - i,
{
    if i == m {
        assert(st.out + s.subrange(i, m) =~= st.out);
        assert((ValueState { out: st.out + s.subrange(i, m), ..st }) == st);
    } else {
        let st2 = ValueState { out: st.out.push(s[i]), ..st };
        assert(value_step(st, s[i], i, env, tbl) == StepOutcome::Next(st2));
        lemma_run_plain_seg(s, i + 1, m, st2, env, tbl);
        assert(st2.out + s.subrange(i + 1, m) =~= st.out + s.subrange(i, m));
    }
}

/// Inside a single-quoted span, every character but `'` is copied
/// verbatim, with no escape or substitution processing.
pub proof fn lemma_run_strong_seg(
    s: Seq<char>,
    i: int,
    m: int,
    st: ValueState,
    env: Map<Seq<char>, Seq<char>>,
    tbl: Map<Seq<char>, Option<Seq<char>>>,
)
    requires
        0 <= i <= m <= s.len(),
        !st.expecting_end,
        !st.escaped,
        st.strong_quote,
        forall|j: int| i <= j < m ==> s[j] != '\'',
    ensures
        value_run(s, i, st, env, tbl) == value_run(
            s,
            m,
            (ValueState { out: st.out + s.subrange(i, m), ..st }),
            env,
            tbl,
        ),
    decreases m - i,
{
    if i == m {
        assert(st.out + s.subrange(i, m) =~= st.out);
        assert((ValueState { out: st.out + s.subrange(i, m), ..st }) == st);
    } else {
        let st2 = ValueState { out: st.out.push(s[i]), ..st };
        assert(value_step(st, s[i], i, env, tbl) == StepOutcome::Next(st2));
        lemma_run_strong_seg(s, i + 1, m, st2, env, tbl);
        assert(st2.out + s.subrange(i + 1, m) =~= st.out + s.subrange(i, m));
    }
}

/// Inside a double-quoted span, a run of characters other than `"`,
/// `\` and `$` is copied verbatim.
pub proof fn lemma_run_weak_seg(
    s: Seq<char>,
    i: int,
    m: int,
    st: ValueState,
    env: Map<Seq<char>, Seq<char>>,
    tbl: Map<Seq<char>, Option<Seq<char>>>,
)
    requires
        0 <= i <= m <= s.len(),
        !st.expecting_end,
        !st.escaped,
        !st.strong_quote,
        st.weak_quote,
        st.mode is Inactive,
        forall|j: int| i <= j < m ==> s[j] != '"' && s[j] != '\\' && s[j] != '$',
    ensures
        value_run(s, i, st, env, tbl) == value_run(
            s,
            m,
            (ValueState { out: st.out + s.subrange(i, m), ..st }),
            env,
            tbl,
        ),
    decreases m - i,
{
    if i == m {
        assert(st.out + s.subrange(i, m) =~= st.out);
        assert((ValueState { out: st.out + s.subrange(i, m), ..st }) == st);
    } else {
        let st2 = ValueState { out: st.out.push(s[i]), ..st };
        assert(value_step(st, s[i], i, env, tbl) == StepOutcome::Next(st2));
        lemma_run_weak_seg(s, i + 1, m, st2, env, tbl);
        assert(st2.out + s.subrange(i + 1, m) =~= st.out + s.subrange(i, m));
    }
}

/// Inside `${...}`, a run of characters other than `}` extends the
/// pending name, whatever their class.
pub proof fn lemma_run_braced_seg(
    s: Seq<char>,
    i: int,
    m: int,
    st: ValueState,
    env: Map<Seq<char>, Seq<char>>,
    tbl: Map<Seq<char>, Option<Seq<char>>>,
)
    requires
        0 <= i <= m <= s.len(),
        !st.expecting_end,
        !st.escaped,
        !st.strong_quote,
        st.mode is Braced,
        forall|j: int| i <= j < m ==> s[j] != '}',
    ensures
        value_run(s, i, st, env, tbl) == value_run(
            s,
            m,
            (ValueState { name: st.name + s.subrange(i, m), ..st }),
            env,
            tbl,
        ),
    decreases m - i,
{
    if i == m {
        assert(st.name + s.subrange(i, m) =~= st.name);
        assert((ValueState { name: st.name + s.subrange(i, m), ..st }) == st);
    } else {
        let st2 = ValueState { name: st.name.push(s[i]), ..st };
        assert(value_step(st, s[i], i, env, tbl) == StepOutcome::Next(st2));
        lemma_run_braced_seg(s, i + 1, m, st2, env, tbl);
        assert(st2.name + s.subrange(i + 1, m) =~= st.name + s.subrange(i, m));
    }
}

/// After a bare `$`, a run of ASCII alphanumeric characters extends the
/// pending name.
pub proof fn lemma_run_block_seg(
    s: Seq<char>,
    i: int,
    m: int,
    st: ValueState,
    env: Map<Seq<char>, Seq<char>>,
    tbl: Map<Seq<char>, Option<Seq<char>>>,
)
    requires
        0 <= i <= m <= s.len(),
        !st.expecting_end,
        !st.escaped,
        !st.strong_quote,
        st.mode is Block,
        forall|j: int| i <= j < m ==> is_ascii_alnum_char(#[trigger] s[j]),
    ensures
        value_run(s, i, st, env, tbl) == value_run(
            s,
            m,
            (ValueState { name: st.name + s.subrange(i, m), ..st }),
            env,
            tbl,
        ),
    decreases m - i,
{
    if i == m {
        assert(st.name + s.subrange(i, m) =~= st.name);
        assert((ValueState { name: st.name + s.subrange(i, m), ..st }) == st);
    } else {
        assert(alnum_char(s[i]));
        let st2 = ValueState { name: st.name.push(s[i]), ..st };
        assert(value_step(st, s[i], i, env, tbl) == StepOutcome::Next(st2));
        lemma_run_block_seg(s, i + 1, m, st2, env, tbl);
        assert(st2.name + s.subrange(i + 1, m) =~= st.name + s.subrange(i, m));
    }
}

/// Law: a `KEY=VALUE` line whose value uses no quoting, escaping,
/// whitespace or substitution parses to exactly the pair (KEY, VALUE).
pub proof fn lemma_plain_assignment(
    key: Seq<char>,
    value: Seq<char>,
    env: Map<Seq<char>, Seq<char>>,
    tbl: Map<Seq<char>, Option<Seq<char>>>,
)
    requires
        valid_key(key),
        value.len() > 0,
        value[0] != '#',
        forall|j: int| 0 <= j < value.len() ==> plain_char(#[trigger] value[j]) && !is_ws_char(
            value[j],
        ),
        no_empty_name(env, tbl),
    ensures
        spec_parse_line(key + seq!['='] + value, env, tbl) == LineOutcome::Assign(
            key,
            value,
            Option::Some(value),
        ),
{
    let line = key + seq!['='] + value;
    let kl = key.len() as int;
    let ll = line.len() as int;
    assert(line.last() == value.last());
    lemma_trim_end_noop(line);
    lemma_skip_ws_fixed(line, 0, 0);
    assert(line[0] == key[0]);
    lemma_key_end_fixed(line, 1, kl);
    assert(line.subrange(0, kl) =~= key);
    lemma_skip_ws_fixed(line, kl, kl);
    assert(line[kl] == '=');
    lemma_skip_ws_fixed(line, kl + 1, kl + 1);
    assert(line[kl + 1] == value[0]);
    let vpart = line.subrange(kl + 1, ll);
    assert(vpart =~= value);
    lemma_run_plain_seg(value, 0, value.len() as int, init_value_state(), env, tbl);
    assert(init_value_state().out + value.subrange(0, value.len() as int) =~= value);
    assert(resolve_name(env, tbl, Seq::empty()) =~= Seq::<char>::empty());
    assert(value + resolve_name(env, tbl, Seq::empty()) =~= value);
    assert(spec_parse_value(value, env, tbl) == ValueOutcome::Emit(value));
}

/// Law: whitespace around the `=` is allowed and changes nothing: with
/// any whitespace runs `ws1`, `ws2`, a line `KEY ws1 = ws2 VALUE` still
/// parses to exactly the pair (KEY, VALUE).
pub proof fn lemma_plain_assignment_spaced(
    key: Seq<char>,
    ws1: Seq<char>,
    ws2: Seq<char>,
    value: Seq<char>,
    env: Map<Seq<char>, Seq<char>>,
    tbl: Map<Seq<char>, Option<Seq<char>>>,
)
    requires
        valid_key(key),
        forall|j: int| 0 <= j < ws1.len() ==> is_ws_char(#[trigger] ws1[j]),
        forall|j: int| 0 <= j < ws2.len() ==> is_ws_char(#[trigger] ws2[j]),
        value.len() > 0,
        value[0] != '#',
        forall|j: int| 0 <= j < value.len() ==> plain_char(#[trigger] value[j]) && !is_ws_char(
            value[j],
        ),
        no_empty_name(env, tbl),
    ensures
        spec_parse_line(key + ws1 + seq!['='] + ws2 + value, env, tbl) == LineOutcome::Assign(
            key,
            value,
            Option::Some(value),
        ),
{
    let line = key + ws1 + seq!['='] + ws2 + value;
    let kl = key.len() as int;
    let w1 = ws1.len() as int;
    let w2 = ws2.len() as int;
    let epos = kl + w1;
    let vstart = epos + 1 + w2;
    let ll = line.len() as int;
    assert(line.last() == value.last());
    lemma_trim_end_noop(line);
    assert(line[0] == key[0]);
    lemma_skip_ws_fixed(line, 0, 0);
    assert(forall|c: char| is_ws_char(c) ==> !is_key_char(c));
    assert(line[epos] == '=');
    lemma_key_end_fixed(line, 1, kl);
    assert(line.subrange(0, kl) =~= key);
    lemma_skip_ws_fixed(line, kl, epos);
    lemma_skip_ws_fixed(line, epos + 1, vstart);
    assert(line[vstart] == value[0]);
    let vpart = line.subrange(vstart, ll);
    assert(vpart =~= value);
    lemma_run_plain_seg(value, 0, value.len() as int, init_value_state(), env, tbl);
    assert(init_value_state().out + value.subrange(0, value.len() as int) =~= value);
    assert(value + resolve_name(env, tbl, Seq::empty()) =~= value);
    assert(spec_parse_value(value, env, tbl) == ValueOutcome::Emit(value));
}

/// Law: a single-quoted value is copied byte for byte; no escape, no
/// substitution, no whitespace handling applies inside `'...'`.
pub proof fn lemma_single_quoted(
    key: Seq<char>,
    body: Seq<char>,
    env: Map<Seq<char>, Seq<char>>,
    tbl: Map<Seq<char>, Option<Seq<char>>>,
)
    requires
        valid_key(key),
        forall|j: int| 0 <= j < body.len() ==> #[trigger] body[j] != '\'',
        no_empty_name(env, tbl),
    ensures
        spec_parse_line(key + seq!['=', '\''] + body + seq!['\''], env, tbl)
            == LineOutcome::Assign(key, body, Option::Some(body)),
{
    let line = key + seq!['=', '\''] + body + seq!['\''];
    let kl = key.len() as int;
    let bl = body.len() as int;
    let ll = line.len() as int;
    assert(line.last() == '\'');
    lemma_trim_end_noop(line);
    lemma_skip_ws_fixed(line, 0, 0);
    assert(line[0] == key[0]);
    lemma_key_end_fixed(line, 1, kl);
    assert(line.subrange(0, kl) =~= key);
    lemma_skip_ws_fixed(line, kl, kl);
    assert(line[kl] == '=');
    lemma_skip_ws_fixed(line, kl + 1, kl + 1);
    assert(line[kl + 1] == '\'');
    let vpart = line.subrange(kl + 1, ll);
    assert(vpart =~= seq!['\''] + body + seq!['\'']);
    let st0 = init_value_state();
    assert(value_step(st0, vpart[0], 0, env, tbl) == StepOutcome::Next(
        (ValueState { strong_quote: true, ..st0 }),
    ));
    let st1 = ValueState { strong_quote: true, ..st0 };
    assert(forall|j: int| 1 <= j < 1 + bl ==> vpart[j] == body[j - 1] && vpart[j] != '\'');
    lemma_run_strong_seg(vpart, 1, 1 + bl, st1, env, tbl);
    let st2 = ValueState { out: st1.out + vpart.subrange(1, 1 + bl), ..st1 };
    assert(st2.out =~= body);
    assert(vpart[1 + bl] == '\'');
    assert(value_step(st2, vpart[1 + bl], 1 + bl, env, tbl) == StepOutcome::Next(
        (ValueState { strong_quote: false, ..st2 }),
    ));
    let st3 = ValueState { strong_quote: false, ..st2 };
    assert(value_run(vpart, 2 + bl, st3, env, tbl) == value_finalize(
        st3,
        vpart.len() as int,
        env,
        tbl,
    ));
    assert(body + resolve_name(env, tbl, Seq::empty()) =~= body);
    assert(spec_parse_value(vpart, env, tbl) == ValueOutcome::Emit(body));
}

/// Law: a double-quoted value keeps its content, spaces included; the
/// quotes themselves are not part of the value.
pub proof fn lemma_weak_quoted(
    key: Seq<char>,
    body: Seq<char>,
    env: Map<Seq<char>, Seq<char>>,
    tbl: Map<Seq<char>, Option<Seq<char>>>,
)
    requires
        valid_key(key),
        forall|j: int| 0 <= j < body.len() ==> #[trigger] body[j] != '"' && body[j] != '\\'
            && body[j] != '$',
        no_empty_name(env, tbl),
    ensures
        spec_parse_line(key + seq!['=', '"'] + body + seq!['"'], env, tbl) == LineOutcome::Assign(
            key,
            body,
            Option::Some(body),
        ),
{
    let line = key + seq!['=', '"'] + body + seq!['"'];
    let kl = key.len() as int;
    let bl = body.len() as int;
    let ll = line.len() as int;
    assert(line.last() == '"');
    lemma_trim_end_noop(line);
    lemma_skip_ws_fixed(line, 0, 0);
    assert(line[0] == key[0]);
    lemma_key_end_fixed(line, 1, kl);
    assert(line.subrange(0, kl) =~= key);
    lemma_skip_ws_fixed(line, kl, kl);
    assert(line[kl] == '=');
    lemma_skip_ws_fixed(line, kl + 1, kl + 1);
    assert(line[kl + 1] == '"');
    let vpart = line.subrange(kl + 1, ll);
    assert(vpart =~= seq!['"'] + body + seq!['"']);
    let st0 = init_value_state();
    assert(value_step(st0, vpart[0], 0, env, tbl) == StepOutcome::Next(
        (ValueState { weak_quote: true, ..st0 }),
    ));
    let st1 = ValueState { weak_quote: true, ..st0 };
    assert(forall|j: int| 1 <= j < 1 + bl ==> vpart[j] == body[j - 1]);
    lemma_run_weak_seg(vpart, 1, 1 + bl, st1, env, tbl);
    let st2 = ValueState { out: st1.out + vpart.subrange(1, 1 + bl), ..st1 };
    assert(st2.out =~= body);
    assert(vpart[1 + bl] == '"');
    assert(value_step(st2, vpart[1 + bl], 1 + bl, env, tbl) == StepOutcome::Next(
        (ValueState { weak_quote: false, ..st2 }),
    ));
    let st3 = ValueState { weak_quote: false, ..st2 };
    assert(value_run(vpart, 2 + bl, st3, env, tbl) == value_finalize(
        st3,
        vpart.len() as int,
        env,
        tbl,
    ));
    assert(body + resolve_name(env, tbl, Seq::empty()) =~= body);
    assert(spec_parse_value(vpart, env, tbl) == ValueOutcome::Emit(body));
}

/// What an escape pair `\c` stands for.
pub open spec fn escape_result(c: char) -> char {
    if c == 'n' {
        '\n'
    } else {
        c
    }
}

/// Law: in an unquoted value a backslash escapes the next character:
/// `\\ \' \" \$` give the character itself and `\n` a newline.
pub proof fn lemma_unquoted_escape(
    key: Seq<char>,
    c: char,
    env: Map<Seq<char>, Seq<char>>,
    tbl: Map<Seq<char>, Option<Seq<char>>>,
)
    requires
        valid_key(key),
        c == '\\' || c == '\'' || c == '"' || c == '$' || c == 'n',
        no_empty_name(env, tbl),
    ensures
        spec_parse_line(key + seq!['=', '\\', c], env, tbl) == LineOutcome::Assign(
            key,
            seq![escape_result(c)],
            Option::Some(seq![escape_result(c)]),
        ),
{
    let line = key + seq!['=', '\\', c];
    let kl = key.len() as int;
    let ll = line.len() as int;
    assert(line.last() == c);
    lemma_trim_end_noop(line);
    lemma_skip_ws_fixed(line, 0, 0);
    assert(line[0] == key[0]);
    lemma_key_end_fixed(line, 1, kl);
    assert(line.subrange(0, kl) =~= key);
    lemma_skip_ws_fixed(line, kl, kl);
    assert(line[kl] == '=');
    lemma_skip_ws_fixed(line, kl + 1, kl + 1);
    assert(line[kl + 1] == '\\');
    let vpart = line.subrange(kl + 1, ll);
    assert(vpart =~= seq!['\\', c]);
    let st0 = init_value_state();
    assert(value_step(st0, vpart[0], 0, env, tbl) == StepOutcome::Next(
        (ValueState { escaped: true, ..st0 }),
    ));
    let st1 = ValueState { escaped: true, ..st0 };
    let st2 = ValueState { escaped: false, out: st1.out.push(escape_result(c)), ..st1 };
    assert(value_step(st1, vpart[1], 1, env, tbl) == StepOutcome::Next(st2));
    assert(value_run(vpart, 0, st0, env, tbl) == value_run(vpart, 1, st1, env, tbl));
    assert(value_run(vpart, 1, st1, env, tbl) == value_run(vpart, 2, st2, env, tbl));
    assert(value_run(vpart, 2, st2, env, tbl) == value_finalize(st2, 2, env, tbl));
    assert(st2.out + resolve_name(env, tbl, Seq::empty()) =~= seq![escape_result(c)]);
    assert(spec_parse_value(vpart, env, tbl) == ValueOutcome::Emit(seq![escape_result(c)]));
}

/// Law: inside double quotes a backslash escapes exactly as it does
/// unquoted, and an escaped space survives there.
pub proof fn lemma_weak_quoted_escape(
    key: Seq<char>,
    c: char,
    env: Map<Seq<char>, Seq<char>>,
    tbl: Map<Seq<char>, Option<Seq<char>>>,
)
    requires
        valid_key(key),
        c == '\\' || c == '\'' || c == '"' || c == '$' || c == ' ' || c == 'n',
        no_empty_name(env, tbl),
    ensures
        spec_parse_line(key + seq!['=', '"', '\\', c, '"'], env, tbl) == LineOutcome::Assign(
            key,
            seq![escape_result(c)],
            Option::Some(seq![escape_result(c)]),
        ),
{
    let line = key + seq!['=', '"', '\\', c, '"'];
    let kl = key.len() as int;
    let ll = line.len() as int;
    assert(line.last() == '"');
    lemma_trim_end_noop(line);
    lemma_skip_ws_fixed(line, 0, 0);
    assert(line[0] == key[0]);
    lemma_key_end_fixed(line, 1, kl);
    assert(line.subrange(0, kl) =~= key);
    lemma_skip_ws_fixed(line, kl, kl);
    assert(line[kl] == '=');
    lemma_skip_ws_fixed(line, kl + 1, kl + 1);
    assert(line[kl + 1] == '"');
    let vpart = line.subrange(kl + 1, ll);
    assert(vpart =~= seq!['"', '\\', c, '"']);
    let st0 = init_value_state();
    assert(value_step(st0, vpart[0], 0, env, tbl) == StepOutcome::Next(
        (ValueState { weak_quote: true, ..st0 }),
    ));
    let st1 = ValueState { weak_quote: true, ..st0 };
    assert(value_step(st1, vpart[1], 1, env, tbl) == StepOutcome::Next(
        (ValueState { escaped: true, ..st1 }),
    ));
    let st2 = ValueState { escaped: true, ..st1 };
    let st3 = ValueState { escaped: false, out: st2.out.push(escape_result(c)), ..st2 };
    assert(value_step(st2, vpart[2], 2, env, tbl) == StepOutcome::Next(st3));
    assert(value_step(st3, vpart[3], 3, env, tbl) == StepOutcome::Next(
        (ValueState { weak_quote: false, ..st3 }),
    ));
    let st4 = ValueState { weak_quote: false, ..st3 };
    assert(value_run(vpart, 0, st0, env, tbl) == value_run(vpart, 1, st1, env, tbl));
    assert(value_run(vpart, 1, st1, env, tbl) == value_run(vpart, 2, st2, env, tbl));
    assert(value_run(vpart, 2, st2, env, tbl) == value_run(vpart, 3, st3, env, tbl));
    assert(value_run(vpart, 3, st3, env, tbl) == value_run(vpart, 4, st4, env, tbl));
    assert(value_run(vpart, 4, st4, env, tbl) == value_finalize(st4, 4, env, tbl));
    assert(st4.out + resolve_name(env, tbl, Seq::empty()) =~= seq![escape_result(c)]);
    assert(spec_parse_value(vpart, env, tbl) == ValueOutcome::Emit(seq![escape_result(c)]));
}

/// Law: an unquoted `${NAME}` value resolves the name, whether or not
/// anything defines it; an undefined name is no error.
pub proof fn lemma_braced_subst(
    key: Seq<char>,
    name: Seq<char>,
    env: Map<Seq<char>, Seq<char>>,
    tbl: Map<Seq<char>, Option<Seq<char>>>,
)
    requires
        valid_key(key),
        forall|j: int| 0 <= j < name.len() ==> #[trigger] name[j] != '}',
        no_empty_name(env, tbl),
    ensures
        spec_parse_line(key + seq!['=', '$', '{'] + name + seq!['}'], env, tbl)
            == LineOutcome::Assign(
            key,
            resolve_name(env, tbl, name),
            Option::Some(resolve_name(env, tbl, name)),
        ),
{
    let line = key + seq!['=', '$', '{'] + name + seq!['}'];
    let kl = key.len() as int;
    let nl = name.len() as int;
    let ll = line.len() as int;
    assert(line.last() == '}');
    lemma_trim_end_noop(line);
    lemma_skip_ws_fixed(line, 0, 0);
    assert(line[0] == key[0]);
    lemma_key_end_fixed(line, 1, kl);
    assert(line.subrange(0, kl) =~= key);
    lemma_skip_ws_fixed(line, kl, kl);
    assert(line[kl] == '=');
    lemma_skip_ws_fixed(line, kl + 1, kl + 1);
    assert(line[kl + 1] == '$');
    let vpart = line.subrange(kl + 1, ll);
    assert(vpart =~= seq!['$', '{'] + name + seq!['}']);
    let st0 = init_value_state();
    assert(value_step(st0, vpart[0], 0, env, tbl) == StepOutcome::Next(
        (ValueState { mode: SubstMode::Block, ..st0 }),
    ));
    let st1 = ValueState { mode: SubstMode::Block, ..st0 };
    assert(vpart[1] == '{' && !alnum_char('{'));
    assert(value_step(st1, vpart[1], 1, env, tbl) == StepOutcome::Next(
        (ValueState { mode: SubstMode::Braced, ..st1 }),
    ));
    let st2 = ValueState { mode: SubstMode::Braced, ..st1 };
    assert(value_run(vpart, 0, st0, env, tbl) == value_run(vpart, 1, st1, env, tbl));
    assert(value_run(vpart, 1, st1, env, tbl) == value_run(vpart, 2, st2, env, tbl));
    assert(forall|j: int| 2 <= j < 2 + nl ==> vpart[j] == name[j - 2]);
    lemma_run_braced_seg(vpart, 2, 2 + nl, st2, env, tbl);
    let st3 = ValueState { name: st2.name + vpart.subrange(2, 2 + nl), ..st2 };
    assert(st3.name =~= name);
    assert(vpart[2 + nl] == '}' && !alnum_char('}'));
    let st4 = ValueState {
        out: st3.out + resolve_name(env, tbl, st3.name),
        name: Seq::empty(),
        mode: SubstMode::Inactive,
        ..st3
    };
    assert(value_step(st3, vpart[2 + nl], 2 + nl, env, tbl) == StepOutcome::Next(st4));
    assert(value_run(vpart, 2 + nl, st3, env, tbl) == value_run(vpart, 3 + nl, st4, env, tbl));
    assert(value_run(vpart, 3 + nl, st4, env, tbl) == value_finalize(
        st4,
        vpart.len() as int,
        env,
        tbl,
    ));
    assert(st4.out + resolve_name(env, tbl, Seq::empty()) =~= resolve_name(env, tbl, name));
    assert(spec_parse_value(vpart, env, tbl) == ValueOutcome::Emit(resolve_name(env, tbl, name)));
}

/// Law: an unquoted bare `$NAME` value, the name a run of ASCII
/// alphanumerics reaching the end of the line, resolves the name.
pub proof fn lemma_bare_subst(
    key: Seq<char>,
    name: Seq<char>,
    env: Map<Seq<char>, Seq<char>>,
    tbl: Map<Seq<char>, Option<Seq<char>>>,
)
    requires
        valid_key(key),
        name.len() > 0,
        forall|j: int| 0 <= j < name.len() ==> is_ascii_alnum_char(#[trigger] name[j]),
    ensures
        spec_parse_line(key + seq!['=', '$'] + name, env, tbl) == LineOutcome::Assign(
            key,
            resolve_name(env, tbl, name),
            Option::Some(resolve_name(env, tbl, name)),
        ),
{
    let line = key + seq!['=', '$'] + name;
    let kl = key.len() as int;
    let nl = name.len() as int;
    let ll = line.len() as int;
    assert(line.last() == name.last());
    lemma_trim_end_noop(line);
    lemma_skip_ws_fixed(line, 0, 0);
    assert(line[0] == key[0]);
    lemma_key_end_fixed(line, 1, kl);
    assert(line.subrange(0, kl) =~= key);
    lemma_skip_ws_fixed(line, kl, kl);
    assert(line[kl] == '=');
    lemma_skip_ws_fixed(line, kl + 1, kl + 1);
    assert(line[kl + 1] == '$');
    let vpart = line.subrange(kl + 1, ll);
    assert(vpart =~= seq!['$'] + name);
    let st0 = init_value_state();
    assert(value_step(st0, vpart[0], 0, env, tbl) == StepOutcome::Next(
        (ValueState { mode: SubstMode::Block, ..st0 }),
    ));
    let st1 = ValueState { mode: SubstMode::Block, ..st0 };
    assert(forall|j: int| 1 <= j < 1 + nl ==> vpart[j] == name[j - 1]);
    lemma_run_block_seg(vpart, 1, 1 + nl, st1, env, tbl);
    let st2 = ValueState { name: st1.name + vpart.subrange(1, 1 + nl), ..st1 };
    assert(st2.name =~= name);
    assert(value_run(vpart, 1 + nl, st2, env, tbl) == value_finalize(
        st2,
        vpart.len() as int,
        env,
        tbl,
    ));
    assert(st2.out + resolve_name(env, tbl, name) =~= resolve_name(env, tbl, name));
    assert(spec_parse_value(vpart, env, tbl) == ValueOutcome::Emit(resolve_name(env, tbl, name)));
}

/// Law: a `${NAME}` inside double quotes resolves the name just as it
/// does unquoted.
pub proof fn lemma_weak_braced_subst(
    key: Seq<char>,
    name: Seq<char>,
    env: Map<Seq<char>, Seq<char>>,
    tbl: Map<Seq<char>, Option<Seq<char>>>,
)
    requires
        valid_key(key),
        forall|j: int| 0 <= j < name.len() ==> #[trigger] name[j] != '}',
        no_empty_name(env, tbl),
    ensures
        spec_parse_line(key + seq!['=', '"', '$', '{'] + name + seq!['}', '"'], env, tbl)
            == LineOutcome::Assign(
            key,
            resolve_name(env, tbl, name),
            Option::Some(resolve_name(env, tbl, name)),
        ),
{
    let line = key + seq!['=', '"', '$', '{'] + name + seq!['}', '"'];
    let kl = key.len() as int;
    let nl = name.len() as int;
    let ll = line.len() as int;
    assert(line.last() == '"');
    lemma_trim_end_noop(line);
    lemma_skip_ws_fixed(line, 0, 0);
    assert(line[0] == key[0]);
    lemma_key_end_fixed(line, 1, kl);
    assert(line.subrange(0, kl) =~= key);
    lemma_skip_ws_fixed(line, kl, kl);
    assert(line[kl] == '=');
    lemma_skip_ws_fixed(line, kl + 1, kl + 1);
    assert(line[kl + 1] == '"');
    let vpart = line.subrange(kl + 1, ll);
    assert(vpart =~= seq!['"', '$', '{'] + name + seq!['}', '"']);
    let st0 = init_value_state();
    assert(value_step(st0, vpart[0], 0, env, tbl) == StepOutcome::Next(
        (ValueState { weak_quote: true, ..st0 }),
    ));
    let st1 = ValueState { weak_quote: true, ..st0 };
    assert(value_step(st1, vpart[1], 1, env, tbl) == StepOutcome::Next(
        (ValueState { mode: SubstMode::Block, ..st1 }),
    ));
    let st2 = ValueState { mode: SubstMode::Block, ..st1 };
    assert(vpart[2] == '{' && !alnum_char('{'));
    assert(value_step(st2, vpart[2], 2, env, tbl) == StepOutcome::Next(
        (ValueState { mode: SubstMode::Braced, ..st2 }),
    ));
    let st3 = ValueState { mode: SubstMode::Braced, ..st2 };
    assert(value_run(vpart, 0, st0, env, tbl) == value_run(vpart, 1, st1, env, tbl));
    assert(value_run(vpart, 1, st1, env, tbl) == value_run(vpart, 2, st2, env, tbl));
    assert(value_run(vpart, 2, st2, env, tbl) == value_run(vpart, 3, st3, env, tbl));
    assert(forall|j: int| 3 <= j < 3 + nl ==> vpart[j] == name[j - 3]);
    lemma_run_braced_seg(vpart, 3, 3 + nl, st3, env, tbl);
    let st4 = ValueState { name: st3.name + vpart.subrange(3, 3 + nl), ..st3 };
    assert(st4.name =~= name);
    assert(vpart[3 + nl] == '}' && !alnum_char('}'));
    let st5 = ValueState {
        out: st4.out + resolve_name(env, tbl, st4.name),
        name: Seq::empty(),
        mode: SubstMode::Inactive,
        ..st4
    };
    assert(value_step(st4, vpart[3 + nl], 3 + nl, env, tbl) == StepOutcome::Next(st5));
    assert(value_run(vpart, 3 + nl, st4, env, tbl) == value_run(vpart, 4 + nl, st5, env, tbl));
    assert(vpart[4 + nl] == '"');
    assert(value_step(st5, vpart[4 + nl], 4 + nl, env, tbl) == StepOutcome::Next(
        (ValueState { weak_quote: false, ..st5 }),
    ));
    let st6 = ValueState { weak_quote: false, ..st5 };
    assert(value_run(vpart, 4 + nl, st5, env, tbl) == value_run(vpart, 5 + nl, st6, env, tbl));
    assert(value_run(vpart, 5 + nl, st6, env, tbl) == value_finalize(
        st6,
        vpart.len() as int,
        env,
        tbl,
    ));
    assert(st6.out + resolve_name(env, tbl, Seq::empty()) =~= resolve_name(env, tbl, name));
    assert(spec_parse_value(vpart, env, tbl) == ValueOutcome::Emit(resolve_name(env, tbl, name)));
}

/// Law: the process environment wins over any file-defined entry when
/// a name is resolved.
pub proof fn lemma_env_wins(
    env: Map<Seq<char>, Seq<char>>,
    tbl: Map<Seq<char>, Option<Seq<char>>>,
    name: Seq<char>,
)
    requires
        env.contains_key(name),
    ensures
        resolve_name(env, tbl, name) == env[name],
{
}

/// Law, end to end: a `KEY=$NAME` line takes the environment value of
/// NAME even when the file defined NAME earlier.
pub proof fn lemma_env_wins_line(
    key: Seq<char>,
    name: Seq<char>,
    env: Map<Seq<char>, Seq<char>>,
    tbl: Map<Seq<char>, Option<Seq<char>>>,
)
    requires
        valid_key(key),
        name.len() > 0,
        forall|j: int| 0 <= j < name.len() ==> is_ascii_alnum_char(#[trigger] name[j]),
        env.contains_key(name),
    ensures
        spec_parse_line(key + seq!['=', '$'] + name, env, tbl) == LineOutcome::Assign(
            key,
            env[name],
            Option::Some(env[name]),
        ),
{
    lemma_bare_subst(key, name, env, tbl);
}

/// Law: a name neither the environment nor any earlier assignment
/// defines resolves to the empty string; it is never an error.
pub proof fn lemma_undefined_resolves_empty(
    env: Map<Seq<char>, Seq<char>>,
    tbl: Map<Seq<char>, Option<Seq<char>>>,
    name: Seq<char>,
)
    requires
        !env.contains_key(name),
        !tbl.contains_key(name),
    ensures
        resolve_name(env, tbl, name) == Seq::<char>::empty(),
{
}

/// The table of assignments the whole-file fold consults when it
/// reaches line `i`: exactly what lines before `i` assigned.
pub open spec fn spec_table_before(
    lines: Seq<Seq<char>>,
    env: Map<Seq<char>, Seq<char>>,
    i: int,
) -> Map<Seq<char>, Option<Seq<char>>>
    decreases i,
{
    if i <= 0 {
        Map::empty()
    } else {
        let prev = spec_table_before(lines, env, i - 1);
        match spec_parse_line(lines[i - 1], env, prev) {
            LineOutcome::Assign(k, v, stored) => prev.insert(k, stored),
            _ => prev,
        }
    }
}

/// The output mapping the whole-file fold has built when it reaches
/// line `i`.
pub open spec fn spec_output_before(
    lines: Seq<Seq<char>>,
    env: Map<Seq<char>, Seq<char>>,
    i: int,
) -> Map<Seq<char>, Seq<char>>
    decreases i,
{
    if i <= 0 {
        Map::empty()
    } else {
        let prev = spec_output_before(lines, env, i - 1);
        match spec_parse_line(lines[i - 1], env, spec_table_before(lines, env, i - 1)) {
            LineOutcome::Assign(k, v, stored) => prev.insert(k, v),
            _ => prev,
        }
    }
}

pub open spec fn line_assigns_name(
    lines: Seq<Seq<char>>,
    env: Map<Seq<char>, Seq<char>>,
    j: int,
    name: Seq<char>,
) -> bool {
    match spec_parse_line(lines[j], env, spec_table_before(lines, env, j)) {
        LineOutcome::Assign(k, v, stored) => k == name,
        _ => false,
    }
}

pub open spec fn line_rejects(lines: Seq<Seq<char>>, env: Map<Seq<char>, Seq<char>>, j: int) -> bool {
    spec_parse_line(lines[j], env, spec_table_before(lines, env, j)) is Reject
}

/// The whole-file fold, started empty, reaches line `i` holding exactly
/// the table and output built from the lines before `i`.
pub proof fn lemma_fold_runs_on_table_before(
    lines: Seq<Seq<char>>,
    env: Map<Seq<char>, Seq<char>>,
    i: int,
)
    requires
        0 <= i <= lines.len(),
        forall|j: int| 0 <= j < i ==> !line_rejects(lines, env, j),
    ensures
        spec_parse_lines(
            lines,
            env,
            0,
            Map::<Seq<char>, Option<Seq<char>>>::empty(),
            Map::<Seq<char>, Seq<char>>::empty(),
        ) == spec_parse_lines(
            lines,
            env,
            i,
            spec_table_before(lines, env, i),
            spec_output_before(lines, env, i),
        ),
    decreases i,
{
    if i > 0 {
        lemma_fold_runs_on_table_before(lines, env, i - 1);
        assert(!line_rejects(lines, env, i - 1));
        match spec_parse_line(lines[i - 1], env, spec_table_before(lines, env, i - 1)) {
            LineOutcome::Skip => {},
            LineOutcome::Assign(k, v, stored) => {},
            LineOutcome::Reject(l, at) => {
                assert(false);
            },
        }
    }
}

/// When no line fails, the whole-file parse yields exactly the output
/// built line by line from the tables of earlier lines.
pub proof fn lemma_whole_file_output(lines: Seq<Seq<char>>, env: Map<Seq<char>, Seq<char>>)
    requires
        forall|j: int| 0 <= j < lines.len() ==> !line_rejects(lines, env, j),
    ensures
        spec_parse_lines(
            lines,
            env,
            0,
            Map::<Seq<char>, Option<Seq<char>>>::empty(),
            Map::<Seq<char>, Seq<char>>::empty(),
        ) == FileOutcome::Done(spec_output_before(lines, env, lines.len() as int)),
{
    lemma_fold_runs_on_table_before(lines, env, lines.len() as int);
}

/// Law: forward references never resolve. A name the environment does
/// not define and no line before `i` assigns is absent from the table
/// line `i` is parsed against, and resolves to the empty string there —
/// whatever any later line assigns to it.
pub proof fn lemma_no_forward_reference(
    lines: Seq<Seq<char>>,
    env: Map<Seq<char>, Seq<char>>,
    i: int,
    name: Seq<char>,
)
    requires
        0 <= i <= lines.len(),
        !env.contains_key(name),
        forall|j: int| 0 <= j < i ==> !line_assigns_name(lines, env, j, name),
    ensures
        !spec_table_before(lines, env, i).contains_key(name),
        resolve_name(env, spec_table_before(lines, env, i), name) == Seq::<char>::empty(),
    decreases i,
{
    if i > 0 {
        lemma_no_forward_reference(lines, env, i - 1, name);
        assert(!line_assigns_name(lines, env, i - 1, name));
        match spec_parse_line(lines[i - 1], env, spec_table_before(lines, env, i - 1)) {
            LineOutcome::Skip => {},
            LineOutcome::Assign(k, v, stored) => {
                assert(k != name);
            },
            LineOutcome::Reject(l, at) => {},
        }
    }
}

pub proof fn lemma_trim_end_props(s: Seq<char>)
    ensures
        spec_trim_end(s).len() <= s.len(),
        spec_trim_end(s) == s.subrange(0, spec_trim_end(s).len() as int),
        forall|j: int| spec_trim_end(s).len() <= j < s.len() ==> is_ws_char(#[trigger] s[j]),
    decreases s.len(),
{
    if s.len() > 0 && is_ws_char(s.last()) {
        lemma_trim_end_props(s.drop_last());
        assert(s.drop_last() =~= s.subrange(0, s.len() - 1));
        let tl = spec_trim_end(s).len() as int;
        assert(s.drop_last().subrange(0, tl) =~= s.subrange(0, tl));
        assert forall|j: int| tl <= j < s.len() implies is_ws_char(#[trigger] s[j]) by {
            if j < s.len() - 1 {
                assert(is_ws_char(s.drop_last()[j]));
            } else {
                assert(is_ws_char(s.last()));
            }
        }
    } else {
        assert(s.subrange(0, s.len() as int) =~= s);
    }
}

pub proof fn lemma_trim_end_all_ws(s: Seq<char>)
    requires
        forall|j: int| 0 <= j < s.len() ==> is_ws_char(#[trigger] s[j]),
    ensures
        spec_trim_end(s).len() == 0,
    decreases s.len(),
{
    if s.len() > 0 {
        assert(is_ws_char(s.last()));
        assert(s.drop_last() =~= s.subrange(0, s.len() - 1));
        lemma_trim_end_all_ws(s.drop_last());
    }
}

/// Law: a line of nothing but whitespace yields no assignment and no
/// error.
pub proof fn lemma_blank_line(
    line: Seq<char>,
    env: Map<Seq<char>, Seq<char>>,
    tbl: Map<Seq<char>, Option<Seq<char>>>,
)
    requires
        forall|j: int| 0 <= j < line.len() ==> is_ws_char(#[trigger] line[j]),
    ensures
        spec_parse_line(line, env, tbl) == LineOutcome::Skip,
{
    lemma_trim_end_all_ws(line);
}

/// Law: a line whose first non-whitespace character is `#` is a
/// comment: no assignment, no error.
pub proof fn lemma_comment_line(
    line: Seq<char>,
    i: int,
    env: Map<Seq<char>, Seq<char>>,
    tbl: Map<Seq<char>, Option<Seq<char>>>,
)
    requires
        0 <= i < line.len(),
        line[i] == '#',
        forall|j: int| 0 <= j < i ==> is_ws_char(#[trigger] line[j]),
    ensures
        spec_parse_line(line, env, tbl) == LineOutcome::Skip,
{
    lemma_trim_end_props(line);
    let t = spec_trim_end(line);
    assert(!is_ws_char('#'));
    assert(i < t.len());
    assert(forall|j: int| 0 <= j < t.len() ==> t[j] == line[j]);
    lemma_skip_ws_fixed(t, 0, i);
}

/// Law: the `export` prefix is optional syntax: `export KEY=VALUE`
/// assigns VALUE to KEY exactly as `KEY=VALUE` does.
pub proof fn lemma_export_prefix(
    key: Seq<char>,
    value: Seq<char>,
    env: Map<Seq<char>, Seq<char>>,
    tbl: Map<Seq<char>, Option<Seq<char>>>,
)
    requires
        valid_key(key),
        value.len() > 0,
        value[0] != '#',
        forall|j: int| 0 <= j < value.len() ==> plain_char(#[trigger] value[j]) && !is_ws_char(
            value[j],
        ),
        no_empty_name(env, tbl),
    ensures
        spec_parse_line(export_seq() + seq![' '] + key + seq!['='] + value, env, tbl)
            == LineOutcome::Assign(key, value, Option::Some(value)),
{
    let line = export_seq() + seq![' '] + key + seq!['='] + value;
    let kl = key.len() as int;
    let ll = line.len() as int;
    assert(line.last() == value.last());
    lemma_trim_end_noop(line);
    assert(line[0] == 'e');
    lemma_skip_ws_fixed(line, 0, 0);
    assert(line[1] == 'x' && line[2] == 'p' && line[3] == 'o' && line[4] == 'r' && line[5] == 't');
    assert(line[6] == ' ');
    lemma_key_end_fixed(line, 1, 6);
    assert(line.subrange(0, 6) =~= export_seq());
    lemma_skip_ws_fixed(line, 6, 7);
    assert(line[7] == key[0]);
    assert(key[0] != '=');
    lemma_key_end_fixed(line, 8, 7 + kl);
    assert(line.subrange(7, 7 + kl) =~= key);
    assert(line[7 + kl] == '=');
    lemma_skip_ws_fixed(line, 7 + kl, 7 + kl);
    lemma_skip_ws_fixed(line, 8 + kl, 8 + kl);
    assert(line[8 + kl] == value[0]);
    let vpart = line.subrange(8 + kl, ll);
    assert(vpart =~= value);
    lemma_run_plain_seg(value, 0, value.len() as int, init_value_state(), env, tbl);
    assert(init_value_state().out + value.subrange(0, value.len() as int) =~= value);
    assert(value + resolve_name(env, tbl, Seq::empty()) =~= value);
    assert(spec_parse_value(value, env, tbl) == ValueOutcome::Emit(value));
}

/// Law: a variable literally named `export` is still assignable:
/// `export=VALUE` assigns VALUE to the key `export`.
pub proof fn lemma_export_assignable(
    value: Seq<char>,
    env: Map<Seq<char>, Seq<char>>,
    tbl: Map<Seq<char>, Option<Seq<char>>>,
)
    requires
        value.len() > 0,
        value[0] != '#',
        forall|j: int| 0 <= j < value.len() ==> plain_char(#[trigger] value[j]) && !is_ws_char(
            value[j],
        ),
        no_empty_name(env, tbl),
    ensures
        spec_parse_line(export_seq() + seq!['='] + value, env, tbl) == LineOutcome::Assign(
            export_seq(),
            value,
            Option::Some(value),
        ),
{
    assert(valid_key(export_seq()));
    lemma_plain_assignment(export_seq(), value, env, tbl);
}

/// Law: a comment after a value is accepted when whitespace separates
/// the two; the comment's text changes nothing.
pub proof fn lemma_trailing_comment(
    key: Seq<char>,
    value: Seq<char>,
    comment: Seq<char>,
    env: Map<Seq<char>, Seq<char>>,
    tbl: Map<Seq<char>, Option<Seq<char>>>,
)
    requires
        valid_key(key),
        value.len() > 0,
        value[0] != '#',
        forall|j: int| 0 <= j < value.len() ==> plain_char(#[trigger] value[j]) && !is_ws_char(
            value[j],
        ),
        no_empty_name(env, tbl),
    ensures
        spec_parse_line(key + seq!['='] + value + seq![' ', '#'] + comment, env, tbl)
            == LineOutcome::Assign(key, value, Option::Some(value)),
{
    let line = key + seq!['='] + value + seq![' ', '#'] + comment;
    let kl = key.len() as int;
    let vl = value.len() as int;
    let hpos = kl + 1 + vl + 1;
    assert(line[hpos] == '#');
    assert(!is_ws_char('#'));
    lemma_trim_end_props(line);
    let t = spec_trim_end(line);
    let tl = t.len() as int;
    assert(hpos < tl);
    assert(forall|j: int| 0 <= j < tl ==> t[j] == line[j]);
    assert(t[0] == key[0]);
    lemma_skip_ws_fixed(t, 0, 0);
    lemma_key_end_fixed(t, 1, kl);
    assert(t.subrange(0, kl) =~= key);
    assert(t[kl] == '=');
    lemma_skip_ws_fixed(t, kl, kl);
    lemma_skip_ws_fixed(t, kl + 1, kl + 1);
    assert(t[kl + 1] == value[0]);
    let vpart = t.subrange(kl + 1, tl);
    assert(forall|j: int| 0 <= j < vl ==> vpart[j] == value[j]);
    assert(vpart[vl] == ' ');
    assert(vpart[vl + 1] == '#');
    let st0 = init_value_state();
    lemma_run_plain_seg(vpart, 0, vl, st0, env, tbl);
    let st1 = ValueState { out: st0.out + vpart.subrange(0, vl), ..st0 };
    assert(st1.out =~= value);
    let st2 = ValueState { expecting_end: true, ..st1 };
    assert(value_step(st1, vpart[vl], vl, env, tbl) == StepOutcome::Next(st2));
    assert(value_run(vpart, vl, st1, env, tbl) == value_run(vpart, vl + 1, st2, env, tbl));
    assert(value_step(st2, vpart[vl + 1], vl + 1, env, tbl) == StepOutcome::Halt(st2));
    assert(value_run(vpart, vl + 1, st2, env, tbl) == value_finalize(
        st2,
        vpart.len() as int,
        env,
        tbl,
    ));
    assert(value + resolve_name(env, tbl, Seq::empty()) =~= value);
    assert(spec_parse_value(vpart, env, tbl) == ValueOutcome::Emit(value));
}

/// Law: text after an unquoted value without a `#` between is a parse
/// error, reported at the first offending character of the value text.
pub proof fn lemma_trailing_garbage(
    key: Seq<char>,
    value: Seq<char>,
    g: char,
    env: Map<Seq<char>, Seq<char>>,
    tbl: Map<Seq<char>, Option<Seq<char>>>,
)
    requires
        valid_key(key),
        value.len() > 0,
        value[0] != '#',
        forall|j: int| 0 <= j < value.len() ==> plain_char(#[trigger] value[j]) && !is_ws_char(
            value[j],
        ),
        !is_ws_char(g),
        g != '#',
    ensures
        spec_parse_line(key + seq!['='] + value + seq![' ', g], env, tbl) == LineOutcome::Reject(
            value + seq![' ', g],
            value.len() as int + 1,
        ),
{
    let line = key + seq!['='] + value + seq![' ', g];
    let kl = key.len() as int;
    let vl = value.len() as int;
    let ll = line.len() as int;
    assert(line.last() == g);
    lemma_trim_end_noop(line);
    assert(line[0] == key[0]);
    lemma_skip_ws_fixed(line, 0, 0);
    lemma_key_end_fixed(line, 1, kl);
    assert(line.subrange(0, kl) =~= key);
    assert(line[kl] == '=');
    lemma_skip_ws_fixed(line, kl, kl);
    lemma_skip_ws_fixed(line, kl + 1, kl + 1);
    assert(line[kl + 1] == value[0]);
    let vpart = line.subrange(kl + 1, ll);
    assert(vpart =~= value + seq![' ', g]);
    let st0 = init_value_state();
    lemma_run_plain_seg(vpart, 0, vl, st0, env, tbl);
    let st1 = ValueState { out: st0.out + vpart.subrange(0, vl), ..st0 };
    let st2 = ValueState { expecting_end: true, ..st1 };
    assert(vpart[vl] == ' ');
    assert(value_step(st1, vpart[vl], vl, env, tbl) == StepOutcome::Next(st2));
    assert(value_run(vpart, vl, st1, env, tbl) == value_run(vpart, vl + 1, st2, env, tbl));
    assert(vpart[vl + 1] == g);
    assert(g != ' ' && g != '\t');
    assert(value_step(st2, vpart[vl + 1], vl + 1, env, tbl) == StepOutcome::Reject(vl + 1));
    assert(spec_parse_value(vpart, env, tbl) == ValueOutcome::Reject(vl + 1));
}

} // verus!
