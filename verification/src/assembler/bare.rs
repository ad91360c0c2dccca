//! An earlier, smaller assembler variant: the loop brackets are emitted
//! bare, without walking to a gating cell, and the read, write and comment
//! forms are not recognized.

use crate::assembler::{
    all_tape_instructions, encode_line, encode_parts, lemma_encode_parts_alphabet,
    lemma_tape_concat, lemma_tape_single, preprocess_spec,
};
use crate::text::{lemma_split_seq_len, split_seq, str_eq, strs_view};
use crate::CompileError;
use vstd::prelude::*;
use vstd::string::{StrSliceExecFns, StringExecFns};

verus! {

/// What this variant makes of one line: bare loop brackets, no read, write
/// or comment forms; everything else as in the full assembler.
pub open spec fn encode_parts_bare(parts: Seq<Seq<char>>) -> Result<Seq<char>, CompileError> {
    let op = parts[0];
    if op == seq!['l', 'o', 'o', 'p'] {
        Ok(seq!['['])
    } else if op == seq!['e', 'n', 'd'] {
        Ok(seq![']'])
    } else if op == seq!['r', 'e', 'a', 'd'] || op == seq!['w', 'r', 'i', 't', 'e'] || (op.len()
        >= 1 && op[0] == '#') {
        Err(CompileError::UnknownOperation)
    } else {
        encode_parts(parts)
    }
}

/// What this variant makes of the remaining lines.
pub open spec fn encode_lines_bare(lines: Seq<Seq<char>>) -> Result<Seq<char>, CompileError>
    decreases lines.len(),
{
    if lines.len() == 0 {
        Ok(Seq::empty())
    } else {
        match (encode_parts_bare(split_seq(lines[0], ' ')), encode_lines_bare(lines.drop_first())) {
            (Ok(h), Ok(t)) => Ok(h + t),
            (Err(e), _) => Err(e),
            (_, Err(e)) => Err(e),
        }
    }
}

/// What this variant makes of a whole text.
pub open spec fn assemble_bare_spec(s: Seq<char>) -> Result<Seq<char>, CompileError> {
    match preprocess_spec(s) {
        Ok(t) => encode_lines_bare(split_seq(t, '\n')),
        Err(e) => Err(e),
    }
}

/// The first pass is the same as the full assembler's.
pub fn preprocess(source: &str) -> (r: Result<String, CompileError>)
    ensures
        r matches Ok(out) ==> preprocess_spec(source@) == Ok::<_, CompileError>(out@),
        r matches Err(e) ==> preprocess_spec(source@) == Err::<Seq<char>, _>(e),
{
    crate::assembler::preprocess(source)
}

fn encode_line_bare(parts: &Vec<String>) -> (r: Result<String, CompileError>)
    requires
        parts@.len() >= 1,
    ensures
        r matches Ok(h) ==> encode_parts_bare(strs_view(parts@)) == Ok::<_, CompileError>(h@),
        r matches Err(e) ==> encode_parts_bare(strs_view(parts@)) == Err::<Seq<char>, _>(e),
{
    let ghost pv = strs_view(parts@);
    proof {
        assert(pv[0] == parts@[0]@);
        reveal_strlit("loop");
        reveal_strlit("end");
        reveal_strlit("read");
        reveal_strlit("write");
        assert("loop"@ =~= seq!['l', 'o', 'o', 'p']);
        assert("end"@ =~= seq!['e', 'n', 'd']);
        assert("read"@ =~= seq!['r', 'e', 'a', 'd']);
        assert("write"@ =~= seq!['w', 'r', 'i', 't', 'e']);
    }
    let op = parts[0].as_str();
    if str_eq(op, "loop") {
        let mut h = String::new();
        crate::text::push_char(&mut h, '[');
        proof {
            assert(h@ =~= seq!['[']);
        }
        Ok(h)
    } else if str_eq(op, "end") {
        let mut h = String::new();
        crate::text::push_char(&mut h, ']');
        proof {
            assert(h@ =~= seq![']']);
        }
        Ok(h)
    } else if str_eq(op, "read") || str_eq(op, "write") {
        Err(CompileError::UnknownOperation)
    } else if op.unicode_len() > 0 && op.get_char(0) == '#' {
        Err(CompileError::UnknownOperation)
    } else {
        encode_line(parts)
    }
}

/// This variant of the assembler: resolves constants, then encodes every
/// line with bare loop brackets.
pub fn assemble(source: &str) -> (r: Result<String, CompileError>)
    ensures
        r matches Ok(out) ==> assemble_bare_spec(source@) == Ok::<_, CompileError>(out@),
        r matches Err(e) ==> assemble_bare_spec(source@) == Err::<Seq<char>, _>(e),
{
    let pre = match preprocess(source) {
        Ok(t) => t,
        Err(e) => {
            return Err(e);
        },
    };
    let lines = crate::text::split_char(pre.as_str(), '\n');
    let ghost lv = strs_view(lines@);
    let mut out = String::new();
    proof {
        assert(lv.skip(0) =~= lv);
        match encode_lines_bare(lv) {
            Ok(t) => {
                assert(Seq::<char>::empty() + t =~= t);
            },
            Err(_) => {},
        }
    }
    let mut i: usize = 0;
    while i < lines.len()
        invariant
            0 <= i <= lines.len(),
            lv == strs_view(lines@),
            lv == split_seq(pre@, '\n'),
            lv.len() == lines.len(),
            preprocess_spec(source@) == Ok::<_, CompileError>(pre@),
            (match encode_lines_bare(lv.skip(i as int)) {
                Ok(t) => encode_lines_bare(lv) == Ok::<_, CompileError>(out@ + t),
                Err(e) => encode_lines_bare(lv) == Err::<Seq<char>, _>(e),
            }),
        decreases lines.len() - i,
    {
        let parts = crate::text::split_char(lines[i].as_str(), ' ');
        proof {
            lemma_split_seq_len(lines@[i as int]@, ' ');
            assert(lv.skip(i as int).drop_first() =~= lv.skip((i + 1) as int));
            assert(lv.skip(i as int)[0] == lines@[i as int]@);
            assert(strs_view(parts@).len() == parts@.len());
        }
        match encode_line_bare(&parts) {
            Ok(h) => {
                let ghost old_out = out@;
                out.append(h.as_str());
                proof {
                    match encode_lines_bare(lv.skip((i + 1) as int)) {
                        Ok(t2) => {
                            assert(old_out + (h@ + t2) =~= out@ + t2);
                        },
                        Err(_) => {},
                    }
                }
            },
            Err(e) => {
                return Err(e);
            },
        }
        i = i + 1;
    }
    proof {
        assert(lv.skip(lines@.len() as int) =~= Seq::<Seq<char>>::empty());
        assert(out@ + Seq::<char>::empty() =~= out@);
    }
    Ok(out)
}


proof fn lemma_encode_lines_bare_alphabet(lines: Seq<Seq<char>>)
    ensures
        (match encode_lines_bare(lines) {
            Ok(t) => all_tape_instructions(t),
            Err(_) => true,
        }),
    decreases lines.len(),
{
    if lines.len() > 0 {
        let parts = split_seq(lines[0], ' ');
        let op = parts[0];
        lemma_tape_single('[');
        lemma_tape_single(']');
        lemma_encode_parts_alphabet(parts);
        lemma_encode_lines_bare_alphabet(lines.drop_first());
        match (encode_parts_bare(parts), encode_lines_bare(lines.drop_first())) {
            (Ok(h), Ok(t)) => {
                lemma_tape_concat(h, t);
            },
            _ => {},
        }
    }
}

/// Law: this variant too emits only the eight-symbol tape-machine alphabet
/// whenever it accepts its input.
pub proof fn lemma_assemble_bare_alphabet(s: Seq<char>)
    ensures
        (match assemble_bare_spec(s) {
            Ok(out) => all_tape_instructions(out),
            Err(_) => true,
        }),
{
    match preprocess_spec(s) {
        Ok(t) => {
            lemma_encode_lines_bare_alphabet(split_seq(t, '\n'));
        },
        Err(_) => {},
    }
}


} // verus!
