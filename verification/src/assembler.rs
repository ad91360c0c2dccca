//! The assembler: symbolic instruction text to tape-machine instructions.
//!
//! A first pass resolves `#define` constants; a second pass encodes each
//! line as head movement and cell mutation. Every operation except `rs` and
//! `ls` parks the head back at the cell where it started.

use crate::text::{
    dec_str, join_sp, lemma_split_seq_len, parse_usize_spec, parse_usize_str, push_char,
    repeat_char, repeat_push, split_char, split_seq, str_eq, strs_view, usize_to_dec,
};
use crate::CompileError;
use vstd::prelude::*;
use vstd::string::StringExecFns;

pub mod bare;

verus! {

/// A symbolic storage-slot name of the intermediate instruction text.
#[derive(Debug, PartialEq, Eq, Clone)]
pub struct Variable {
    name: String,
}

impl View for Variable {
    type V = Seq<char>;

    closed spec fn view(&self) -> Seq<char> {
        self.name@
    }
}

impl Variable {
    pub fn new(name: &str) -> (v: Variable)
        ensures
            v@ == name@,
    {
        Variable { name: name.to_owned() }
    }

    /// The name as text.
    pub fn as_str(&self) -> (r: &str)
        ensures
            r@ == self@,
    {
        self.name.as_str()
    }
}

/// An operand of the intermediate instruction text: a literal 8-bit number,
/// or a named constant resolved by the assembler's first pass.
#[derive(Debug, PartialEq, Eq, Clone)]
pub enum Value {
    Num(u8),
    Const(String),
}

/// The mathematical shape of a `Value`.
pub enum ValueView {
    Num(u8),
    Const(Seq<char>),
}

impl View for Value {
    type V = ValueView;

    open spec fn view(&self) -> ValueView {
        match self {
            Value::Num(n) => ValueView::Num(*n),
            Value::Const(s) => ValueView::Const(s@),
        }
    }
}

impl Value {
    pub fn new_num(val: u8) -> (v: Value)
        ensures
            v@ == ValueView::Num(val),
    {
        Value::Num(val)
    }

    pub fn new_const(val: &str) -> (v: Value)
        ensures
            v@ == ValueView::Const(val@),
    {
        Value::Const(val.to_owned())
    }
}

/// The views of a constant table: later entries shadow earlier ones, as a
/// map built by repeated insertion would.
pub open spec fn env_view(env: Seq<(String, usize)>) -> Seq<(Seq<char>, usize)> {
    env.map_values(|p: (String, usize)| (p.0@, p.1))
}

/// Looks a name up in the constant table; the most recent entry wins.
pub open spec fn env_lookup(env: Seq<(Seq<char>, usize)>, key: Seq<char>) -> Option<usize>
    decreases env.len(),
{
    if env.len() == 0 {
        None
    } else if env.last().0 == key {
        Some(env.last().1)
    } else {
        env_lookup(env.drop_last(), key)
    }
}

/// Each operand with a defined name replaced by its decimal value; the
/// first part, the mnemonic position, is never substituted.
pub open spec fn replace_parts(parts: Seq<Seq<char>>, env: Seq<(Seq<char>, usize)>) -> Seq<
    Seq<char>,
> {
    parts.map(
        |i: int, p: Seq<char>|
            if i == 0 {
                p
            } else {
                match env_lookup(env, p) {
                    Some(v) => dec_str(v as int),
                    None => p,
                }
            },
    )
}

/// What the first pass makes of the remaining lines, given the constants
/// defined so far: `#define` lines extend the table and emit nothing; every
/// other line is emitted with its parts substituted.
pub open spec fn preprocess_lines(
    lines: Seq<Seq<char>>,
    env: Seq<(Seq<char>, usize)>,
) -> Result<Seq<char>, CompileError>
    decreases lines.len(),
{
    if lines.len() == 0 {
        Ok(Seq::empty())
    } else {
        let parts = split_seq(lines[0], ' ');
        if parts[0] == seq!['#', 'd', 'e', 'f', 'i', 'n', 'e'] {
            if parts.len() < 3 {
                Err(CompileError::MalformedInstruction)
            } else {
                match parse_usize_spec(parts[2]) {
                    Some(v) => preprocess_lines(lines.drop_first(), env.push((parts[1], v))),
                    None => Err(CompileError::MalformedInstruction),
                }
            }
        } else {
            match preprocess_lines(lines.drop_first(), env) {
                Ok(t) => Ok(join_sp(replace_parts(parts, env)) + seq!['\n'] + t),
                Err(e) => Err(e),
            }
        }
    }
}

/// What the first pass makes of the whole text.
pub open spec fn preprocess_spec(s: Seq<char>) -> Result<Seq<char>, CompileError> {
    preprocess_lines(split_seq(s, '\n'), Seq::empty())
}

/// The duplication primitive: parked at the origin, walk to the source,
/// and while it is nonzero move one unit from it onto every destination,
/// ending with the source zeroed and the head parked again.
pub open spec fn copy_dests(dests: Seq<Seq<char>>) -> Result<Seq<char>, CompileError>
    decreases dests.len(),
{
    if dests.len() == 0 {
        Ok(Seq::empty())
    } else {
        match (copy_dests(dests.drop_last()), parse_usize_spec(dests.last())) {
            (Ok(t), Some(d)) => Ok(
                t + repeat_char('>', d as int) + seq!['+'] + repeat_char('<', d as int),
            ),
            (Err(e), _) => Err(e),
            (_, None) => Err(CompileError::MalformedInstruction),
        }
    }
}

pub open spec fn copy_encode(args: Seq<Seq<char>>) -> Result<Seq<char>, CompileError> {
    if args.len() == 0 {
        Err(CompileError::MalformedInstruction)
    } else {
        match (parse_usize_spec(args[0]), copy_dests(args.drop_first())) {
            (Some(src), Ok(inner)) => Ok(
                repeat_char('>', src as int) + seq!['[', '-'] + repeat_char('<', src as int)
                    + inner + repeat_char('>', src as int) + seq![']'] + repeat_char(
                    '<',
                    src as int,
                ),
            ),
            _ => Err(CompileError::MalformedInstruction),
        }
    }
}

/// An operation that walks to a cell, emits one fixed fragment there, and
/// walks back.
pub open spec fn parked(var: int, mid: Seq<char>) -> Seq<char> {
    repeat_char('>', var) + mid + repeat_char('<', var)
}

/// What the second pass makes of one line, already split into parts. An
/// empty line, or one whose first part begins with the comment marker,
/// produces no instructions; the `#define` form never reaches this pass.
pub open spec fn encode_parts(parts: Seq<Seq<char>>) -> Result<Seq<char>, CompileError> {
    let op = parts[0];
    if op == seq!['a', 'd', 'd'] {
        if parts.len() < 3 {
            Err(CompileError::MalformedInstruction)
        } else {
            match (parse_usize_spec(parts[1]), parse_usize_spec(parts[2])) {
                (Some(var), Some(val)) => Ok(
                    parked(var as int, repeat_char('+', val as int)),
                ),
                _ => Err(CompileError::MalformedInstruction),
            }
        }
    } else if op == seq!['s', 'u', 'b'] {
        if parts.len() < 3 {
            Err(CompileError::MalformedInstruction)
        } else {
            match (parse_usize_spec(parts[1]), parse_usize_spec(parts[2])) {
                (Some(var), Some(val)) => Ok(
                    parked(var as int, repeat_char('-', val as int)),
                ),
                _ => Err(CompileError::MalformedInstruction),
            }
        }
    } else if op == seq!['s', 'e', 't'] {
        if parts.len() < 3 {
            Err(CompileError::MalformedInstruction)
        } else {
            match (parse_usize_spec(parts[1]), parse_usize_spec(parts[2])) {
                (Some(var), Some(val)) => Ok(
                    parked(var as int, seq!['[', '-', ']'] + repeat_char('+', val as int)),
                ),
                _ => Err(CompileError::MalformedInstruction),
            }
        }
    } else if op == seq!['r', 's'] {
        if parts.len() < 2 {
            Err(CompileError::MalformedInstruction)
        } else {
            match parse_usize_spec(parts[1]) {
                Some(n) => Ok(repeat_char('>', n as int)),
                None => Err(CompileError::MalformedInstruction),
            }
        }
    } else if op == seq!['l', 's'] {
        if parts.len() < 2 {
            Err(CompileError::MalformedInstruction)
        } else {
            match parse_usize_spec(parts[1]) {
                Some(n) => Ok(repeat_char('<', n as int)),
                None => Err(CompileError::MalformedInstruction),
            }
        }
    } else if op == seq!['l', 'o', 'o', 'p'] {
        if parts.len() < 2 {
            Err(CompileError::MalformedInstruction)
        } else {
            match parse_usize_spec(parts[1]) {
                Some(n) => Ok(parked(n as int, seq!['['])),
                None => Err(CompileError::MalformedInstruction),
            }
        }
    } else if op == seq!['e', 'n', 'd'] {
        if parts.len() < 2 {
            Err(CompileError::MalformedInstruction)
        } else {
            match parse_usize_spec(parts[1]) {
                Some(n) => Ok(parked(n as int, seq![']'])),
                None => Err(CompileError::MalformedInstruction),
            }
        }
    } else if op == seq!['c', 'o', 'p', 'y'] {
        copy_encode(parts.drop_first())
    } else if op == seq!['r', 'e', 'a', 'd'] {
        if parts.len() < 2 {
            Err(CompileError::MalformedInstruction)
        } else {
            match parse_usize_spec(parts[1]) {
                Some(n) => Ok(parked(n as int, seq![','])),
                None => Err(CompileError::MalformedInstruction),
            }
        }
    } else if op == seq!['w', 'r', 'i', 't', 'e'] {
        if parts.len() < 2 {
            Err(CompileError::MalformedInstruction)
        } else {
            match parse_usize_spec(parts[1]) {
                Some(n) => Ok(parked(n as int, seq!['.'])),
                None => Err(CompileError::MalformedInstruction),
            }
        }
    } else if op.len() == 0 || op[0] == '#' {
        Ok(Seq::empty())
    } else {
        Err(CompileError::UnknownOperation)
    }
}

/// What the second pass makes of the remaining lines: each line's
/// instructions, concatenated.
pub open spec fn encode_lines(lines: Seq<Seq<char>>) -> Result<Seq<char>, CompileError>
    decreases lines.len(),
{
    if lines.len() == 0 {
        Ok(Seq::empty())
    } else {
        match (encode_parts(split_seq(lines[0], ' ')), encode_lines(lines.drop_first())) {
            (Ok(h), Ok(t)) => Ok(h + t),
            (Err(e), _) => Err(e),
            (_, Err(e)) => Err(e),
        }
    }
}

/// What assembling a whole text yields: constant substitution, then each
/// line encoded as tape-machine instructions.
pub open spec fn assemble_spec(s: Seq<char>) -> Result<Seq<char>, CompileError> {
    match preprocess_spec(s) {
        Ok(t) => encode_lines(split_seq(t, '\n')),
        Err(e) => Err(e),
    }
}

proof fn lemma_copy_dests_err_kind(dests: Seq<Seq<char>>)
    ensures
        copy_dests(dests) is Err ==> copy_dests(dests) == Err::<Seq<char>, CompileError>(
            CompileError::MalformedInstruction,
        ),
    decreases dests.len(),
{
    if dests.len() > 0 {
        lemma_copy_dests_err_kind(dests.drop_last());
    }
}

proof fn lemma_copy_dests_err(dests: Seq<Seq<char>>, m: int)
    requires
        0 <= m < dests.len(),
        parse_usize_spec(dests[m]) is None,
    ensures
        copy_dests(dests) == Err::<Seq<char>, CompileError>(CompileError::MalformedInstruction),
    decreases dests.len(),
{
    if m == dests.len() - 1 {
        lemma_copy_dests_err_kind(dests.drop_last());
    } else {
        lemma_copy_dests_err(dests.drop_last(), m);
    }
}

/// Encodes the duplication primitive: the operands from `from` on are the
/// source cell and the destination cells.
pub(crate) fn parse_copy(parts: &Vec<String>, from: usize) -> (r: Result<String, CompileError>)
    requires
        from as int <= parts@.len(),
    ensures
        r matches Ok(out) ==> copy_encode(strs_view(parts@).skip(from as int)) == Ok::<
            _,
            CompileError,
        >(out@),
        r matches Err(e) ==> copy_encode(strs_view(parts@).skip(from as int)) == Err::<
            Seq<char>,
            _,
        >(e),
{
    let ghost args = strs_view(parts@).skip(from as int);
    if from >= parts.len() {
        return Err(CompileError::MalformedInstruction);
    }
    proof {
        assert(args[0] == parts@[from as int]@);
    }
    let src = match parse_usize_str(parts[from].as_str()) {
        Some(s) => s,
        None => {
            return Err(CompileError::MalformedInstruction);
        },
    };
    let ghost dests = args.drop_first();
    let mut inner = String::new();
    proof {
        assert(dests.subrange(0, 0) =~= Seq::<Seq<char>>::empty());
    }
    let mut j = from + 1;
    while j < parts.len()
        invariant
            from + 1 <= j <= parts.len(),
            args == strs_view(parts@).skip(from as int),
            dests == args.drop_first(),
            args.len() == parts@.len() - from,
            copy_dests(dests.subrange(0, j - from - 1)) == Ok::<_, CompileError>(inner@),
        decreases parts.len() - j,
    {
        let ghost m = j - from - 1;
        proof {
            assert(dests[m as int] == parts@[j as int]@);
            assert(dests.subrange(0, m + 1).drop_last() =~= dests.subrange(0, m as int));
        }
        let d = match parse_usize_str(parts[j].as_str()) {
            Some(d) => d,
            None => {
                proof {
                    lemma_copy_dests_err(dests, m as int);
                }
                return Err(CompileError::MalformedInstruction);
            },
        };
        let ghost old_inner = inner@;
        repeat_push(&mut inner, '>', d);
        push_char(&mut inner, '+');
        repeat_push(&mut inner, '<', d);
        proof {
            assert(inner@ =~= old_inner + repeat_char('>', d as int) + seq!['+'] + repeat_char(
                '<',
                d as int,
            ));
        }
        j = j + 1;
    }
    proof {
        assert(dests.subrange(0, dests.len() as int) =~= dests);
    }
    let mut out = String::new();
    let ghost empty_out = out@;
    repeat_push(&mut out, '>', src);
    push_char(&mut out, '[');
    push_char(&mut out, '-');
    repeat_push(&mut out, '<', src);
    out.append(inner.as_str());
    repeat_push(&mut out, '>', src);
    push_char(&mut out, ']');
    repeat_push(&mut out, '<', src);
    proof {
        assert(out@ =~= repeat_char('>', src as int) + seq!['[', '-'] + repeat_char(
            '<',
            src as int,
        ) + inner@ + repeat_char('>', src as int) + seq![']'] + repeat_char('<', src as int));
    }
    Ok(out)
}

/// Encodes one line of the second pass, already split into parts.
pub(crate) fn encode_line(parts: &Vec<String>) -> (r: Result<String, CompileError>)
    requires
        parts@.len() >= 1,
    ensures
        r matches Ok(h) ==> encode_parts(strs_view(parts@)) == Ok::<_, CompileError>(h@),
        r matches Err(e) ==> encode_parts(strs_view(parts@)) == Err::<Seq<char>, _>(e),
{
    let ghost pv = strs_view(parts@);
    proof {
        assert(pv.len() == parts@.len());
        assert(pv[0] == parts@[0]@);
        if parts@.len() >= 2 {
            assert(pv[1] == parts@[1]@);
        }
        if parts@.len() >= 3 {
            assert(pv[2] == parts@[2]@);
        }
        reveal_strlit("add");
        reveal_strlit("sub");
        reveal_strlit("set");
        reveal_strlit("rs");
        reveal_strlit("ls");
        reveal_strlit("loop");
        reveal_strlit("end");
        reveal_strlit("copy");
        reveal_strlit("read");
        reveal_strlit("write");
        assert("add"@ =~= seq!['a', 'd', 'd']);
        assert("sub"@ =~= seq!['s', 'u', 'b']);
        assert("set"@ =~= seq!['s', 'e', 't']);
        assert("rs"@ =~= seq!['r', 's']);
        assert("ls"@ =~= seq!['l', 's']);
        assert("loop"@ =~= seq!['l', 'o', 'o', 'p']);
        assert("end"@ =~= seq!['e', 'n', 'd']);
        assert("copy"@ =~= seq!['c', 'o', 'p', 'y']);
        assert("read"@ =~= seq!['r', 'e', 'a', 'd']);
        assert("write"@ =~= seq!['w', 'r', 'i', 't', 'e']);
    }
    let op = parts[0].as_str();
    if str_eq(op, "add") {
        if parts.len() < 3 {
            return Err(CompileError::MalformedInstruction);
        }
        match (parse_usize_str(parts[1].as_str()), parse_usize_str(parts[2].as_str())) {
            (Some(var), Some(val)) => {
                let mut h = String::new();
                repeat_push(&mut h, '>', var);
                repeat_push(&mut h, '+', val);
                repeat_push(&mut h, '<', var);
                proof {
                    assert(h@ =~= parked(var as int, repeat_char('+', val as int)));
                }
                Ok(h)
            },
            _ => Err(CompileError::MalformedInstruction),
        }
    } else if str_eq(op, "sub") {
        if parts.len() < 3 {
            return Err(CompileError::MalformedInstruction);
        }
        match (parse_usize_str(parts[1].as_str()), parse_usize_str(parts[2].as_str())) {
            (Some(var), Some(val)) => {
                let mut h = String::new();
                repeat_push(&mut h, '>', var);
                repeat_push(&mut h, '-', val);
                repeat_push(&mut h, '<', var);
                proof {
                    assert(h@ =~= parked(var as int, repeat_char('-', val as int)));
                }
                Ok(h)
            },
            _ => Err(CompileError::MalformedInstruction),
        }
    } else if str_eq(op, "set") {
        if parts.len() < 3 {
            return Err(CompileError::MalformedInstruction);
        }
        match (parse_usize_str(parts[1].as_str()), parse_usize_str(parts[2].as_str())) {
            (Some(var), Some(val)) => {
                let mut h = String::new();
                repeat_push(&mut h, '>', var);
                push_char(&mut h, '[');
                push_char(&mut h, '-');
                push_char(&mut h, ']');
                repeat_push(&mut h, '+', val);
                repeat_push(&mut h, '<', var);
                proof {
                    assert(h@ =~= parked(
                        var as int,
                        seq!['[', '-', ']'] + repeat_char('+', val as int),
                    ));
                }
                Ok(h)
            },
            _ => Err(CompileError::MalformedInstruction),
        }
    } else if str_eq(op, "rs") {
        if parts.len() < 2 {
            return Err(CompileError::MalformedInstruction);
        }
        match parse_usize_str(parts[1].as_str()) {
            Some(n) => {
                let mut h = String::new();
                repeat_push(&mut h, '>', n);
                proof {
                    assert(h@ =~= repeat_char('>', n as int));
                }
                Ok(h)
            },
            None => Err(CompileError::MalformedInstruction),
        }
    } else if str_eq(op, "ls") {
        if parts.len() < 2 {
            return Err(CompileError::MalformedInstruction);
        }
        match parse_usize_str(parts[1].as_str()) {
            Some(n) => {
                let mut h = String::new();
                repeat_push(&mut h, '<', n);
                proof {
                    assert(h@ =~= repeat_char('<', n as int));
                }
                Ok(h)
            },
            None => Err(CompileError::MalformedInstruction),
        }
    } else if str_eq(op, "loop") {
        if parts.len() < 2 {
            return Err(CompileError::MalformedInstruction);
        }
        match parse_usize_str(parts[1].as_str()) {
            Some(n) => {
                let mut h = String::new();
                repeat_push(&mut h, '>', n);
                push_char(&mut h, '[');
                repeat_push(&mut h, '<', n);
                proof {
                    assert(h@ =~= parked(n as int, seq!['[']));
                }
                Ok(h)
            },
            None => Err(CompileError::MalformedInstruction),
        }
    } else if str_eq(op, "end") {
        if parts.len() < 2 {
            return Err(CompileError::MalformedInstruction);
        }
        match parse_usize_str(parts[1].as_str()) {
            Some(n) => {
                let mut h = String::new();
                repeat_push(&mut h, '>', n);
                push_char(&mut h, ']');
                repeat_push(&mut h, '<', n);
                proof {
                    assert(h@ =~= parked(n as int, seq![']']));
                }
                Ok(h)
            },
            None => Err(CompileError::MalformedInstruction),
        }
    } else if str_eq(op, "copy") {
        proof {
            assert(pv.drop_first() =~= strs_view(parts@).skip(1));
        }
        parse_copy(parts, 1)
    } else if str_eq(op, "read") {
        if parts.len() < 2 {
            return Err(CompileError::MalformedInstruction);
        }
        match parse_usize_str(parts[1].as_str()) {
            Some(n) => {
                let mut h = String::new();
                repeat_push(&mut h, '>', n);
                push_char(&mut h, ',');
                repeat_push(&mut h, '<', n);
                proof {
                    assert(h@ =~= parked(n as int, seq![',']));
                }
                Ok(h)
            },
            None => Err(CompileError::MalformedInstruction),
        }
    } else if str_eq(op, "write") {
        if parts.len() < 2 {
            return Err(CompileError::MalformedInstruction);
        }
        match parse_usize_str(parts[1].as_str()) {
            Some(n) => {
                let mut h = String::new();
                repeat_push(&mut h, '>', n);
                push_char(&mut h, '.');
                repeat_push(&mut h, '<', n);
                proof {
                    assert(h@ =~= parked(n as int, seq!['.']));
                }
                Ok(h)
            },
            None => Err(CompileError::MalformedInstruction),
        }
    } else if op.unicode_len() == 0 {
        Ok(String::new())
    } else if op.get_char(0) == '#' {
        Ok(String::new())
    } else {
        Err(CompileError::UnknownOperation)
    }
}

/// The assembler: resolves constants, then encodes every line, leaving the
/// flat tape-machine instruction text.
pub fn assemble(source: &str) -> (r: Result<String, CompileError>)
    ensures
        r matches Ok(out) ==> assemble_spec(source@) == Ok::<_, CompileError>(out@),
        r matches Err(e) ==> assemble_spec(source@) == Err::<Seq<char>, _>(e),
{
    let pre = match preprocess(source) {
        Ok(t) => t,
        Err(e) => {
            return Err(e);
        },
    };
    let lines = split_char(pre.as_str(), '\n');
    let ghost lv = strs_view(lines@);
    let mut out = String::new();
    proof {
        assert(lv.skip(0) =~= lv);
        match encode_lines(lv) {
            Ok(t) => {
                assert(Seq::<char>::empty() + t =~= t);
            },
            Err(_) => {},
        }
    }
    let mut i: usize = 0;
    while i < lines.len()
        invariant
            0 <= i <= lines.len(),
            lv == strs_view(lines@),
            lv == split_seq(pre@, '\n'),
            lv.len() == lines.len(),
            preprocess_spec(source@) == Ok::<_, CompileError>(pre@),
            (match encode_lines(lv.skip(i as int)) {
                Ok(t) => encode_lines(lv) == Ok::<_, CompileError>(out@ + t),
                Err(e) => encode_lines(lv) == Err::<Seq<char>, _>(e),
            }),
        decreases lines.len() - i,
    {
        let parts = split_char(lines[i].as_str(), ' ');
        proof {
            lemma_split_seq_len(lines@[i as int]@, ' ');
            assert(lv.skip(i as int).drop_first() =~= lv.skip((i + 1) as int));
            assert(lv.skip(i as int)[0] == lines@[i as int]@);
            assert(strs_view(parts@).len() == parts@.len());
        }
        match encode_line(&parts) {
            Ok(h) => {
                let ghost old_out = out@;
                out.append(h.as_str());
                proof {
                    match encode_lines(lv.skip((i + 1) as int)) {
                        Ok(t2) => {
                            assert(old_out + (h@ + t2) =~= out@ + t2);
                        },
                        Err(_) => {},
                    }
                }
            },
            Err(e) => {
                return Err(e);
            },
        }
        i = i + 1;
    }
    proof {
        assert(lv.skip(lines@.len() as int) =~= Seq::<Seq<char>>::empty());
        assert(out@ + Seq::<char>::empty() =~= out@);
    }
    Ok(out)
}

/// Looks a name up in the constant table; the most recent entry wins.
fn env_get(env: &Vec<(String, usize)>, key: &str) -> (r: Option<usize>)
    ensures
        r == env_lookup(env_view(env@), key@),
{
    let ghost ev = env_view(env@);
    proof {
        assert(ev.subrange(0, env@.len() as int) =~= ev);
    }
    let mut k = env.len();
    while k > 0
        invariant
            0 <= k <= env.len(),
            ev == env_view(env@),
            env_lookup(ev, key@) == env_lookup(ev.subrange(0, k as int), key@),
        decreases k,
    {
        k = k - 1;
        proof {
            assert(ev.subrange(0, (k + 1) as int).drop_last() =~= ev.subrange(0, k as int));
            assert(ev.subrange(0, (k + 1) as int).last() == (env@[k as int].0@, env@[k as int].1));
        }
        if str_eq(env[k].0.as_str(), key) {
            return Some(env[k].1);
        }
    }
    proof {
        assert(ev.subrange(0, 0) =~= Seq::<(Seq<char>, usize)>::empty());
    }
    None
}

/// One line with every defined name replaced by its value, joined with
/// single spaces.
fn replace(parts: &Vec<String>, env: &Vec<(String, usize)>) -> (r: String)
    ensures
        r@ == join_sp(replace_parts(strs_view(parts@), env_view(env@))),
{
    let ghost rp = replace_parts(strs_view(parts@), env_view(env@));
    let mut out = String::new();
    let mut j: usize = 0;
    while j < parts.len()
        invariant
            0 <= j <= parts.len(),
            rp == replace_parts(strs_view(parts@), env_view(env@)),
            rp.len() == parts.len(),
            out@ == join_sp(rp.subrange(0, j as int)),
        decreases parts.len() - j,
    {
        if j == 0 {
            out.append(parts[0].as_str());
        } else {
            push_char(&mut out, ' ');
            match env_get(env, parts[j].as_str()) {
                Some(v) => {
                    let d = usize_to_dec(v);
                    out.append(d.as_str());
                },
                None => {
                    out.append(parts[j].as_str());
                },
            }
        }
        proof {
            assert(rp[j as int] == (if j == 0 {
                parts@[0]@
            } else {
                match env_lookup(env_view(env@), parts@[j as int]@) {
                    Some(v) => dec_str(v as int),
                    None => parts@[j as int]@,
                }
            }));
            let prev = rp.subrange(0, j as int);
            let next = rp.subrange(0, (j + 1) as int);
            assert(next.drop_last() =~= prev);
            if j == 0 {
                assert(out@ =~= join_sp(next));
            } else {
                assert(out@ =~= join_sp(next));
            }
        }
        j = j + 1;
    }
    proof {
        assert(rp.subrange(0, parts@.len() as int) =~= rp);
    }
    out
}

/// The assembler's first pass: resolves `#define` constants and removes
/// their lines; every other line is emitted with its parts substituted.
pub fn preprocess(source: &str) -> (r: Result<String, CompileError>)
    ensures
        r matches Ok(out) ==> preprocess_spec(source@) == Ok::<_, CompileError>(out@),
        r matches Err(e) ==> preprocess_spec(source@) == Err::<Seq<char>, _>(e),
{
    let lines = split_char(source, '\n');
    let ghost lv = strs_view(lines@);
    let mut env: Vec<(String, usize)> = Vec::new();
    let mut out = String::new();
    proof {
        assert(lv.skip(0) =~= lv);
        assert(env_view(env@) =~= Seq::<(Seq<char>, usize)>::empty());
        match preprocess_lines(lv, Seq::empty()) {
            Ok(t) => {
                assert(Seq::<char>::empty() + t =~= t);
            },
            Err(_) => {},
        }
    }
    let mut i: usize = 0;
    while i < lines.len()
        invariant
            0 <= i <= lines.len(),
            lv == strs_view(lines@),
            lv == split_seq(source@, '\n'),
            lv.len() == lines.len(),
            (match preprocess_lines(lv.skip(i as int), env_view(env@)) {
                Ok(t) => preprocess_lines(lv, Seq::empty()) == Ok::<_, CompileError>(out@ + t),
                Err(e) => preprocess_lines(lv, Seq::empty()) == Err::<Seq<char>, _>(e),
            }),
        decreases lines.len() - i,
    {
        let parts = split_char(lines[i].as_str(), ' ');
        let ghost pv = strs_view(parts@);
        proof {
            lemma_split_seq_len(lines@[i as int]@, ' ');
            assert(lv.skip(i as int).drop_first() =~= lv.skip((i + 1) as int));
            assert(lv.skip(i as int)[0] == lines@[i as int]@);
            reveal_strlit("#define");
            assert("#define"@ =~= seq!['#', 'd', 'e', 'f', 'i', 'n', 'e']);
            assert(pv.len() == parts@.len());
            assert(pv == split_seq(lv.skip(i as int)[0], ' '));
            assert(pv[0] == parts@[0]@);
            if parts@.len() >= 3 {
                assert(pv[2] == parts@[2]@);
            }
        }
        if str_eq(parts[0].as_str(), "#define") {
            if parts.len() < 3 {
                return Err(CompileError::MalformedInstruction);
            }
            match parse_usize_str(parts[2].as_str()) {
                Some(v) => {
                    let ghost old_env = env_view(env@);
                    let name = parts[1].clone();
                    env.push((name, v));
                    proof {
                        assert(env_view(env@) =~= old_env.push((parts@[1]@, v)));
                    }
                },
                None => {
                    return Err(CompileError::MalformedInstruction);
                },
            }
        } else {
            let line = replace(&parts, &env);
            let ghost old_out = out@;
            out.append(line.as_str());
            push_char(&mut out, '\n');
            proof {
                assert(out@ =~= old_out + line@ + seq!['\n']);
                match preprocess_lines(lv.skip((i + 1) as int), env_view(env@)) {
                    Ok(t2) => {
                        assert(old_out + (line@ + seq!['\n'] + t2) =~= out@ + t2);
                    },
                    Err(_) => {},
                }
            }
        }
        i = i + 1;
    }
    proof {
        assert(lv.skip(lines@.len() as int) =~= Seq::<Seq<char>>::empty());
        assert(out@ + Seq::<char>::empty() =~= out@);
    }
    Ok(out)
}


/// One of the eight instructions of the tape machine.
pub open spec fn is_tape_instruction(c: char) -> bool {
    c == '>' || c == '<' || c == '+' || c == '-' || c == '[' || c == ']' || c == ',' || c == '.'
}

/// Every character is a tape-machine instruction.
pub open spec fn all_tape_instructions(s: Seq<char>) -> bool {
    forall|i: int| 0 <= i < s.len() ==> is_tape_instruction(#[trigger] s[i])
}

pub(crate) proof fn lemma_tape_concat(a: Seq<char>, b: Seq<char>)
    requires
        all_tape_instructions(a),
        all_tape_instructions(b),
    ensures
        all_tape_instructions(a + b),
{
    assert forall|i: int| 0 <= i < (a + b).len() implies is_tape_instruction(#[trigger] (a
        + b)[i]) by {
        if i < a.len() {
            assert((a + b)[i] == a[i]);
        } else {
            assert((a + b)[i] == b[i - a.len()]);
        }
    }
}

proof fn lemma_tape_repeat(c: char, n: int)
    requires
        is_tape_instruction(c),
    ensures
        all_tape_instructions(repeat_char(c, n)),
{
}

pub(crate) proof fn lemma_tape_single(c: char)
    requires
        is_tape_instruction(c),
    ensures
        all_tape_instructions(seq![c]),
{
}

proof fn lemma_tape_parked(var: int, mid: Seq<char>)
    requires
        all_tape_instructions(mid),
    ensures
        all_tape_instructions(parked(var, mid)),
{
    lemma_tape_repeat('>', var);
    lemma_tape_repeat('<', var);
    lemma_tape_concat(repeat_char('>', var), mid);
    lemma_tape_concat(repeat_char('>', var) + mid, repeat_char('<', var));
}

proof fn lemma_copy_dests_alphabet(dests: Seq<Seq<char>>)
    ensures
        (match copy_dests(dests) {
            Ok(t) => all_tape_instructions(t),
            Err(_) => true,
        }),
    decreases dests.len(),
{
    if dests.len() > 0 {
        lemma_copy_dests_alphabet(dests.drop_last());
        match (copy_dests(dests.drop_last()), parse_usize_spec(dests.last())) {
            (Ok(t), Some(d)) => {
                lemma_tape_repeat('>', d as int);
                lemma_tape_repeat('<', d as int);
                lemma_tape_single('+');
                lemma_tape_concat(t, repeat_char('>', d as int));
                lemma_tape_concat(t + repeat_char('>', d as int), seq!['+']);
                lemma_tape_concat(t + repeat_char('>', d as int) + seq!['+'], repeat_char('<', d as int));
            },
            _ => {},
        }
    }
}

proof fn lemma_copy_encode_alphabet(args: Seq<Seq<char>>)
    ensures
        (match copy_encode(args) {
            Ok(t) => all_tape_instructions(t),
            Err(_) => true,
        }),
{
    if args.len() > 0 {
        lemma_copy_dests_alphabet(args.drop_first());
        match (parse_usize_spec(args[0]), copy_dests(args.drop_first())) {
            (Some(src), Ok(inner)) => {
                let n = src as int;
                lemma_tape_repeat('>', n);
                lemma_tape_repeat('<', n);
                lemma_tape_single('[');
                lemma_tape_single('-');
                lemma_tape_single(']');
                assert(seq!['[', '-'] =~= seq!['['] + seq!['-']);
                lemma_tape_concat(seq!['['], seq!['-']);
                lemma_tape_concat(repeat_char('>', n), seq!['[', '-']);
                lemma_tape_concat(repeat_char('>', n) + seq!['[', '-'], repeat_char('<', n));
                lemma_tape_concat(repeat_char('>', n) + seq!['[', '-'] + repeat_char('<', n), inner);
                lemma_tape_concat(
                    repeat_char('>', n) + seq!['[', '-'] + repeat_char('<', n) + inner,
                    repeat_char('>', n),
                );
                lemma_tape_concat(
                    repeat_char('>', n) + seq!['[', '-'] + repeat_char('<', n) + inner + repeat_char('>', n),
                    seq![']'],
                );
                lemma_tape_concat(
                    repeat_char('>', n) + seq!['[', '-'] + repeat_char('<', n) + inner + repeat_char('>', n) + seq![']'],
                    repeat_char('<', n),
                );
            },
            _ => {},
        }
    }
}

pub(crate) proof fn lemma_encode_parts_alphabet(parts: Seq<Seq<char>>)
    ensures
        (match encode_parts(parts) {
            Ok(h) => all_tape_instructions(h),
            Err(_) => true,
        }),
{
    let op = parts[0];
    lemma_tape_single('[');
    lemma_tape_single('-');
    lemma_tape_single(']');
    lemma_tape_single(',');
    lemma_tape_single('.');
    if op == seq!['a', 'd', 'd'] && parts.len() >= 3 {
        match (parse_usize_spec(parts[1]), parse_usize_spec(parts[2])) {
            (Some(var), Some(val)) => {
                lemma_tape_repeat('+', val as int);
                lemma_tape_parked(var as int, repeat_char('+', val as int));
            },
            _ => {},
        }
    } else if op == seq!['s', 'u', 'b'] && parts.len() >= 3 {
        match (parse_usize_spec(parts[1]), parse_usize_spec(parts[2])) {
            (Some(var), Some(val)) => {
                lemma_tape_repeat('-', val as int);
                lemma_tape_parked(var as int, repeat_char('-', val as int));
            },
            _ => {},
        }
    } else if op == seq!['s', 'e', 't'] && parts.len() >= 3 {
        match (parse_usize_spec(parts[1]), parse_usize_spec(parts[2])) {
            (Some(var), Some(val)) => {
                assert(seq!['[', '-', ']'] =~= seq!['['] + seq!['-'] + seq![']']);
                lemma_tape_concat(seq!['['], seq!['-']);
                lemma_tape_concat(seq!['['] + seq!['-'], seq![']']);
                lemma_tape_repeat('+', val as int);
                lemma_tape_concat(seq!['[', '-', ']'], repeat_char('+', val as int));
                lemma_tape_parked(var as int, seq!['[', '-', ']'] + repeat_char('+', val as int));
            },
            _ => {},
        }
    } else if op == seq!['r', 's'] && parts.len() >= 2 {
        match parse_usize_spec(parts[1]) {
            Some(n) => {
                lemma_tape_repeat('>', n as int);
            },
            None => {},
        }
    } else if op == seq!['l', 's'] && parts.len() >= 2 {
        match parse_usize_spec(parts[1]) {
            Some(n) => {
                lemma_tape_repeat('<', n as int);
            },
            None => {},
        }
    } else if op == seq!['l', 'o', 'o', 'p'] && parts.len() >= 2 {
        match parse_usize_spec(parts[1]) {
            Some(n) => {
                lemma_tape_parked(n as int, seq!['[']);
            },
            None => {},
        }
    } else if op == seq!['e', 'n', 'd'] && parts.len() >= 2 {
        match parse_usize_spec(parts[1]) {
            Some(n) => {
                lemma_tape_parked(n as int, seq![']']);
            },
            None => {},
        }
    } else if op == seq!['c', 'o', 'p', 'y'] {
        lemma_copy_encode_alphabet(parts.drop_first());
    } else if op == seq!['r', 'e', 'a', 'd'] && parts.len() >= 2 {
        match parse_usize_spec(parts[1]) {
            Some(n) => {
                lemma_tape_parked(n as int, seq![',']);
            },
            None => {},
        }
    } else if op == seq!['w', 'r', 'i', 't', 'e'] && parts.len() >= 2 {
        match parse_usize_spec(parts[1]) {
            Some(n) => {
                lemma_tape_parked(n as int, seq!['.']);
            },
            None => {},
        }
    }
}

proof fn lemma_encode_lines_alphabet(lines: Seq<Seq<char>>)
    ensures
        (match encode_lines(lines) {
            Ok(t) => all_tape_instructions(t),
            Err(_) => true,
        }),
    decreases lines.len(),
{
    if lines.len() > 0 {
        lemma_encode_parts_alphabet(split_seq(lines[0], ' '));
        lemma_encode_lines_alphabet(lines.drop_first());
        match (encode_parts(split_seq(lines[0], ' ')), encode_lines(lines.drop_first())) {
            (Ok(h), Ok(t)) => {
                lemma_tape_concat(h, t);
            },
            _ => {},
        }
    }
}

/// Law: whatever instruction text the assembler accepts, its output is a
/// flat string over the eight-symbol tape-machine alphabet: head moves,
/// increment, decrement, the loop brackets, and the two I/O instructions.
pub proof fn lemma_assemble_alphabet(s: Seq<char>)
    ensures
        (match assemble_spec(s) {
            Ok(out) => all_tape_instructions(out),
            Err(_) => true,
        }),
{
    match preprocess_spec(s) {
        Ok(t) => {
            lemma_encode_lines_alphabet(split_seq(t, '\n'));
        },
        Err(_) => {},
    }
}


} // verus!
