//! The code generator: a syntax tree to the symbolic instruction sequence.
//!
//! Branches and loops are lowered onto a machine whose only conditional
//! primitive is "repeat while a cell is nonzero": each comparison is
//! evaluated into a flag cell without destroying the compared variable, and
//! the gated code is wrapped in a loop on that flag that runs at most once.

use crate::assembler::{Value, ValueView, Variable as CellName};
use crate::parser::{cmps_view, stmts_view, Bool, CmpV, Compare, Direction, Statement, StmtV, AST};
use crate::text::{dec_str, join_nl, join_sp, push_char, str_eq, strs_view, usize_to_dec};
use crate::CompileError;
use vstd::string::{StrSliceExecFns, StringExecFns};
use vstd::prelude::*;

verus! {

/// One operation of the symbolic instruction sequence. Every operation but
/// `Rs` and `Ls` leaves the head where it found it.
#[derive(Debug, PartialEq, Eq, Clone)]
pub enum Asm {
    /// Binds a symbolic name to a value, for the assembler's first pass.
    Define(CellName, Value),
    Add(CellName, Value),
    Sub(CellName, Value),
    /// Forces a cell to an absolute value regardless of its prior contents.
    SetTo(CellName, Value),
    /// Moves the head right; the one way the origin is relocated.
    Rs(Value),
    /// Moves the head left; the one way the origin is relocated.
    Ls(Value),
    /// Opens the loop gated on a cell being nonzero.
    Loop(CellName),
    /// Closes the loop gated on a cell being nonzero.
    End(CellName),
    /// Zeroes the source cell and adds its value onto every destination.
    Copy(CellName, Vec<CellName>),
    Read(CellName),
    Write(CellName),
}

/// The mathematical shape of an operation.
pub enum AsmV {
    Define(Seq<char>, ValueView),
    Add(Seq<char>, ValueView),
    Sub(Seq<char>, ValueView),
    SetTo(Seq<char>, ValueView),
    Rs(ValueView),
    Ls(ValueView),
    Loop(Seq<char>),
    End(Seq<char>),
    Copy(Seq<char>, Seq<Seq<char>>),
    Read(Seq<char>),
    Write(Seq<char>),
}

/// The views of a name list.
pub open spec fn names_view(vs: Seq<CellName>) -> Seq<Seq<char>> {
    vs.map_values(|v: CellName| v@)
}

impl View for Asm {
    type V = AsmV;

    open spec fn view(&self) -> AsmV {
        match self {
            Asm::Define(v, val) => AsmV::Define(v@, val@),
            Asm::Add(v, val) => AsmV::Add(v@, val@),
            Asm::Sub(v, val) => AsmV::Sub(v@, val@),
            Asm::SetTo(v, val) => AsmV::SetTo(v@, val@),
            Asm::Rs(val) => AsmV::Rs(val@),
            Asm::Ls(val) => AsmV::Ls(val@),
            Asm::Loop(v) => AsmV::Loop(v@),
            Asm::End(v) => AsmV::End(v@),
            Asm::Copy(v, vs) => AsmV::Copy(v@, names_view(vs@)),
            Asm::Read(v) => AsmV::Read(v@),
            Asm::Write(v) => AsmV::Write(v@),
        }
    }
}

/// The views of an operation list.
pub open spec fn asms_view(v: Seq<Asm>) -> Seq<AsmV> {
    v.map_values(|a: Asm| a@)
}

/// The scratch cell used to restore a compared variable.
pub open spec fn temp_name() -> Seq<char> {
    seq!['t', 'm', 'p']
}

/// The flag gating a then-branch.
pub open spec fn if_flag_name() -> Seq<char> {
    seq!['I', 'F']
}

/// The flag that records that no then-branch ran.
pub open spec fn else_flag_name() -> Seq<char> {
    seq!['E', 'L', 'S', 'E']
}

/// The flag holding the outcome of an equality test.
pub open spec fn is_eq_name() -> Seq<char> {
    seq!['I', 'S', '_', 'E', 'Q']
}

/// The flag re-armed by a while body to continue the loop.
pub open spec fn while_flag_name() -> Seq<char> {
    seq!['W', 'H', 'I', 'L', 'E']
}

/// The generator's internal cell names, in allocation order. A user
/// variable may not collide with any of them.
pub open spec fn reserved_names() -> Seq<Seq<char>> {
    seq![temp_name(), if_flag_name(), else_flag_name(), is_eq_name(), while_flag_name()]
}

/// The symbolic constant holding the per-row stride.
pub open spec fn cell_size_name() -> Seq<char> {
    seq!['_', '_', 'c', 'e', 'l', 'l', '_', 's', 'i', 'z', 'e']
}

/// The non-destructive compare pattern: duplicate the variable into the
/// scratch cell and the flag, restore it from the scratch cell, and
/// subtract the literal from the flag alone. The flag ends nonzero exactly
/// when the variable differs from the literal.
pub open spec fn gen_set_ne(var: Seq<char>, val: u8, flag: Seq<char>) -> Seq<AsmV> {
    seq![
        AsmV::Copy(var, seq![temp_name(), flag]),
        AsmV::Copy(temp_name(), seq![var]),
        AsmV::Sub(flag, ValueView::Num(val)),
    ]
}

/// Flag assignments, one `Set` per pair.
pub open spec fn flag_sets(sets: Seq<(Seq<char>, u8)>) -> Seq<AsmV> {
    sets.map_values(|p: (Seq<char>, u8)| AsmV::SetTo(p.0, ValueView::Num(p.1)))
}

/// A loop on a flag that runs its body at most once: the trailing flag
/// assignments and the forced flag reset close it after one pass.
pub open spec fn gen_if_flag(flag: Seq<char>, body: Seq<AsmV>, sets: Seq<(Seq<char>, u8)>) -> Seq<
    AsmV,
> {
    seq![AsmV::Loop(flag)] + body + flag_sets(sets) + seq![
        AsmV::SetTo(flag, ValueView::Num(0)),
        AsmV::End(flag),
    ]
}

/// Lowers an AND-list of comparisons around an already-lowered body: each
/// later term is evaluated strictly inside the earlier terms' gating loops,
/// and the trailing flag assignments run only in the innermost loop. With
/// no terms at all the body and the trailing flag assignments pass through
/// directly, un-gated.
pub open spec fn gen_if(conds: Seq<CmpV>, body: Seq<AsmV>, sets: Seq<(Seq<char>, u8)>) -> Seq<AsmV>
    decreases conds.len(),
{
    if conds.len() == 0 {
        body + flag_sets(sets)
    } else {
        match conds[0] {
            CmpV::Ne(var, val) => {
                if conds.len() == 1 {
                    gen_set_ne(var, val, if_flag_name()) + gen_if_flag(if_flag_name(), body, sets)
                } else {
                    gen_set_ne(var, val, if_flag_name()) + gen_if_flag(
                        if_flag_name(),
                        gen_if(conds.drop_first(), body, sets),
                        Seq::empty(),
                    )
                }
            },
            CmpV::Eq(var, val) => {
                if conds.len() == 1 {
                    flag_sets(seq![(is_eq_name(), 1u8)]) + gen_set_ne(var, val, if_flag_name())
                        + gen_if_flag(if_flag_name(), Seq::empty(), seq![(is_eq_name(), 0u8)])
                        + gen_if_flag(is_eq_name(), body, sets)
                } else {
                    flag_sets(seq![(is_eq_name(), 1u8)]) + gen_set_ne(var, val, if_flag_name())
                        + gen_if_flag(if_flag_name(), Seq::empty(), seq![(is_eq_name(), 0u8)])
                        + gen_if_flag(
                        is_eq_name(),
                        gen_if(conds.drop_first(), body, sets),
                        Seq::empty(),
                    )
                }
            },
        }
    }
}

/// Lowers a conditional with already-lowered branch bodies. With an
/// else-branch, the else flag is armed first, cleared inside the
/// then-branch, and gates the else body afterwards.
pub open spec fn gen_if_else_low(
    conds: Seq<CmpV>,
    then_low: Seq<AsmV>,
    else_low: Option<Seq<AsmV>>,
    sets: Seq<(Seq<char>, u8)>,
) -> Seq<AsmV> {
    match else_low {
        Some(eb) => seq![AsmV::SetTo(else_flag_name(), ValueView::Num(1))] + gen_if(
            conds,
            then_low,
            sets.push((else_flag_name(), 0u8)),
        ) + gen_if_flag(else_flag_name(), eb, Seq::empty()),
        None => gen_if(conds, then_low, sets),
    }
}

/// Lowers a while loop with an already-lowered body: the continue flag is
/// armed, the loop opens on it, the flag is pessimistically cleared, and
/// the body re-arms it only when the condition held.
pub open spec fn gen_while_low(conds: Seq<CmpV>, body_low: Seq<AsmV>) -> Seq<AsmV> {
    seq![
        AsmV::SetTo(while_flag_name(), ValueView::Num(1)),
        AsmV::Loop(while_flag_name()),
        AsmV::SetTo(while_flag_name(), ValueView::Num(0)),
    ] + gen_if_else_low(conds, body_low, None, seq![(while_flag_name(), 1u8)]) + seq![
        AsmV::End(while_flag_name()),
    ]
}

/// What one statement lowers to.
pub open spec fn gen_stmt(s: StmtV) -> Seq<AsmV>
    decreases s,
{
    match s {
        StmtV::Input(v) => seq![AsmV::Read(v)],
        StmtV::Output(v) => seq![AsmV::Write(v)],
        StmtV::Assign(v, n) => seq![AsmV::SetTo(v, ValueView::Num(n))],
        StmtV::Move(d) => match d {
            Direction::Right => seq![AsmV::Rs(ValueView::Const(cell_size_name()))],
            Direction::Left => seq![AsmV::Ls(ValueView::Const(cell_size_name()))],
        },
        StmtV::While(cs, body) => gen_while_low(cs, gen_stmts(body)),
        StmtV::If(cs, tb, eb) => gen_if_else_low(
            cs,
            gen_stmts(tb),
            match eb {
                Some(b) => Some(gen_stmts(b)),
                None => None,
            },
            Seq::empty(),
        ),
    }
}

/// What a statement sequence lowers to: each statement's operations, in
/// order.
pub open spec fn gen_stmts(ss: Seq<StmtV>) -> Seq<AsmV>
    decreases ss,
{
    if ss.len() == 0 {
        Seq::empty()
    } else {
        gen_stmts(ss.drop_last()) + gen_stmt(ss.last())
    }
}

fn generate_set_ne(var: &crate::parser::Variable, val: &crate::parser::Num, flag: &str) -> (r: Vec<
    Asm,
>)
    ensures
        asms_view(r@) == gen_set_ne(var@, val@, flag@),
{
    let dests = vec![CellName::new("tmp"), CellName::new(flag)];
    let ghost dv = names_view(dests@);
    let restore = vec![CellName::new(var.0.as_str())];
    let ghost rv = names_view(restore@);
    let r = vec![
        Asm::Copy(CellName::new(var.0.as_str()), dests),
        Asm::Copy(CellName::new("tmp"), restore),
        Asm::Sub(CellName::new(flag), Value::new_num(val.0)),
    ];
    proof {
        reveal_strlit("tmp");
        assert("tmp"@ =~= temp_name());
        assert(dv =~= seq![temp_name(), flag@]);
        assert(rv =~= seq![var@]);
        assert(asms_view(r@) =~= gen_set_ne(var@, val@, flag@));
    }
    r
}

/// The views of an assignment list.
pub open spec fn sets_view(s: Seq<(&str, u8)>) -> Seq<(Seq<char>, u8)> {
    s.map_values(|p: (&str, u8)| (p.0@, p.1))
}

fn generate_flag_setup(setups: Vec<(&str, u8)>) -> (r: Vec<Asm>)
    ensures
        asms_view(r@) == flag_sets(sets_view(setups@)),
{
    let mut r: Vec<Asm> = Vec::new();
    let mut i: usize = 0;
    proof {
        assert(asms_view(r@) =~= flag_sets(sets_view(setups@.subrange(0, 0))));
    }
    while i < setups.len()
        invariant
            0 <= i <= setups.len(),
            asms_view(r@) == flag_sets(sets_view(setups@.subrange(0, i as int))),
        decreases setups.len() - i,
    {
        let (name, v) = setups[i];
        r.push(Asm::SetTo(CellName::new(name), Value::new_num(v)));
        proof {
            assert((name, v) == setups@[i as int]);
            assert(sets_view(setups@.subrange(0, (i + 1) as int)) =~= sets_view(
                setups@.subrange(0, i as int),
            ).push((setups@[i as int].0@, setups@[i as int].1)));
            assert(r@.last()@ == AsmV::SetTo(setups@[i as int].0@, ValueView::Num(
                setups@[i as int].1,
            )));
            assert(asms_view(r@) =~= asms_view(r@.drop_last()).push(r@.last()@));
            assert(flag_sets(
                sets_view(setups@.subrange(0, i as int)).push(
                    (setups@[i as int].0@, setups@[i as int].1),
                ),
            ) =~= flag_sets(sets_view(setups@.subrange(0, i as int))).push(
                AsmV::SetTo(setups@[i as int].0@, ValueView::Num(setups@[i as int].1)),
            ));
            assert(asms_view(r@) =~= flag_sets(sets_view(setups@.subrange(0, (i + 1) as int))));
        }
        i = i + 1;
    }
    proof {
        assert(setups@.subrange(0, setups@.len() as int) =~= setups@);
    }
    r
}

fn generate_if_flag(flag: &str, func: Vec<Asm>, set: Vec<(&str, u8)>) -> (r: Vec<Asm>)
    ensures
        asms_view(r@) == gen_if_flag(flag@, asms_view(func@), sets_view(set@)),
{
    let ghost fv = asms_view(func@);
    let ghost sv = sets_view(set@);
    let mut r: Vec<Asm> = Vec::new();
    r.push(Asm::Loop(CellName::new(flag)));
    let mut body = func;
    r.append(&mut body);
    let mut sets_code = generate_flag_setup(set);
    r.append(&mut sets_code);
    r.push(Asm::SetTo(CellName::new(flag), Value::new_num(0)));
    r.push(Asm::End(CellName::new(flag)));
    proof {
        assert(asms_view(r@) =~= gen_if_flag(flag@, fv, sv));
    }
    r
}

fn generate_if(conds: &Vec<Compare>, from: usize, func_if: Vec<Asm>, flag: Vec<(&str, u8)>) -> (r:
    Vec<Asm>)
    requires
        from <= conds@.len(),
    ensures
        asms_view(r@) == gen_if(
            cmps_view(conds@).skip(from as int),
            asms_view(func_if@),
            sets_view(flag@),
        ),
    decreases conds@.len() - from,
{
    let ghost cs = cmps_view(conds@).skip(from as int);
    let ghost bodyv = asms_view(func_if@);
    let ghost setsv = sets_view(flag@);
    if from == conds.len() {
        let mut r = func_if;
        let mut sets_code = generate_flag_setup(flag);
        r.append(&mut sets_code);
        proof {
            assert(cs =~= Seq::<CmpV>::empty());
            assert(asms_view(r@) =~= bodyv + flag_sets(setsv));
        }
        return r;
    }
    proof {
        assert(cs[0] == conds@[from as int]@);
        assert(cs.drop_first() =~= cmps_view(conds@).skip((from + 1) as int));
        reveal_strlit("IF");
        reveal_strlit("IS_EQ");
        assert("IF"@ =~= if_flag_name());
        assert("IS_EQ"@ =~= is_eq_name());
    }
    let last = from + 1 == conds.len();
    match &conds[from] {
        Compare::NE(var, val) => {
            let mut r = generate_set_ne(var, val, "IF");
            let mut tail = if last {
                generate_if_flag("IF", func_if, flag)
            } else {
                let inner = generate_if(conds, from + 1, func_if, flag);
                generate_if_flag("IF", inner, Vec::new())
            };
            let ghost tv = asms_view(tail@);
            r.append(&mut tail);
            proof {
                if last {
                    assert(sets_view(Seq::<(&str, u8)>::empty()) =~= Seq::<(Seq<char>, u8)>::empty());
                    assert(asms_view(r@) =~= gen_set_ne(var@, val@, if_flag_name()) + tv);
                } else {
                    assert(sets_view(Seq::<(&str, u8)>::empty()) =~= Seq::<(Seq<char>, u8)>::empty());
                    assert(asms_view(r@) =~= gen_set_ne(var@, val@, if_flag_name()) + tv);
                }
                assert(asms_view(r@) =~= gen_if(cs, bodyv, setsv));
            }
            r
        },
        Compare::EQ(var, val) => {
            let mut r = generate_flag_setup(vec![("IS_EQ", 1u8)]);
            let ghost p1 = asms_view(r@);
            let mut p2 = generate_set_ne(var, val, "IF");
            let ghost p2v = asms_view(p2@);
            let mut p3 = generate_if_flag("IF", Vec::new(), vec![("IS_EQ", 0u8)]);
            let ghost p3v = asms_view(p3@);
            let mut p4 = if last {
                generate_if_flag("IS_EQ", func_if, flag)
            } else {
                let inner = generate_if(conds, from + 1, func_if, flag);
                generate_if_flag("IS_EQ", inner, Vec::new())
            };
            let ghost p4v = asms_view(p4@);
            r.append(&mut p2);
            r.append(&mut p3);
            r.append(&mut p4);
            proof {
                assert(sets_view(seq![("IS_EQ", 1u8)]) =~= seq![(is_eq_name(), 1u8)]);
                assert(sets_view(seq![("IS_EQ", 0u8)]) =~= seq![(is_eq_name(), 0u8)]);
                assert(p1 =~= flag_sets(seq![(is_eq_name(), 1u8)]));
                assert(sets_view(Seq::<(&str, u8)>::empty()) =~= Seq::<(Seq<char>, u8)>::empty());
                assert(asms_view(Seq::<Asm>::empty()) =~= Seq::<AsmV>::empty());
                assert(asms_view(r@) =~= p1 + p2v + p3v + p4v);
                assert(asms_view(r@) =~= gen_if(cs, bodyv, setsv));
            }
            r
        },
    }
}

fn generate_if_else(
    condition: &Bool,
    func_if: Vec<Asm>,
    func_else: Option<Vec<Asm>>,
    flag: Vec<(&str, u8)>,
) -> (r: Vec<Asm>)
    ensures
        asms_view(r@) == gen_if_else_low(
            condition@,
            asms_view(func_if@),
            (match func_else {
                Some(b) => Some(asms_view(b@)),
                None => None::<Seq<AsmV>>,
            }),
            sets_view(flag@),
        ),
{
    let ghost tbv = asms_view(func_if@);
    let ghost setsv = sets_view(flag@);
    proof {
        reveal_strlit("ELSE");
        assert("ELSE"@ =~= else_flag_name());
    }
    match func_else {
        Some(eb) => {
            let ghost ebv = asms_view(eb@);
            let mut flag = flag;
            flag.push(("ELSE", 0u8));
            proof {
                assert(sets_view(flag@) =~= setsv.push((else_flag_name(), 0u8)));
            }
            let mut r: Vec<Asm> = Vec::new();
            r.push(Asm::SetTo(CellName::new("ELSE"), Value::new_num(1)));
            let mut ifp = generate_if(&condition.compares, 0, func_if, flag);
            proof {
                assert(cmps_view(condition.compares@).skip(0) =~= condition@);
            }
            r.append(&mut ifp);
            let mut ep = generate_if_flag("ELSE", eb, Vec::new());
            r.append(&mut ep);
            proof {
                assert(sets_view(Seq::<(&str, u8)>::empty()) =~= Seq::<(Seq<char>, u8)>::empty());
                assert(asms_view(r@) =~= gen_if_else_low(
                    condition@,
                    tbv,
                    Some(ebv),
                    setsv,
                ));
            }
            r
        },
        None => {
            let r = generate_if(&condition.compares, 0, func_if, flag);
            proof {
                assert(cmps_view(condition.compares@).skip(0) =~= condition@);
            }
            r
        },
    }
}

fn generate_while(condition: &Bool, body: Vec<Asm>) -> (r: Vec<Asm>)
    ensures
        asms_view(r@) == gen_while_low(condition@, asms_view(body@)),
{
    let ghost bv = asms_view(body@);
    proof {
        reveal_strlit("WHILE");
        assert("WHILE"@ =~= while_flag_name());
    }
    let mut r: Vec<Asm> = Vec::new();
    r.push(Asm::SetTo(CellName::new("WHILE"), Value::new_num(1)));
    r.push(Asm::Loop(CellName::new("WHILE")));
    r.push(Asm::SetTo(CellName::new("WHILE"), Value::new_num(0)));
    let flag_arg: Vec<(&str, u8)> = vec![("WHILE", 1u8)];
    let ghost fav = sets_view(flag_arg@);
    proof {
        assert(fav =~= seq![(while_flag_name(), 1u8)]);
    }
    let mut mid = generate_if_else(condition, body, None, flag_arg);
    r.append(&mut mid);
    r.push(Asm::End(CellName::new("WHILE")));
    proof {
        assert(asms_view(r@) =~= gen_while_low(condition@, bv));
    }
    r
}

/// Lowers one statement.
pub fn statement_to_asm(stmt: &Statement) -> (r: Vec<Asm>)
    ensures
        asms_view(r@) == gen_stmt(stmt@),
    decreases *stmt,
{
    match stmt {
        Statement::Input(var) => {
            let r = vec![Asm::Read(CellName::new(var.0.as_str()))];
            proof {
                assert(asms_view(r@) =~= seq![AsmV::Read(var@)]);
            }
            r
        },
        Statement::Output(var) => {
            let r = vec![Asm::Write(CellName::new(var.0.as_str()))];
            proof {
                assert(asms_view(r@) =~= seq![AsmV::Write(var@)]);
            }
            r
        },
        Statement::Assign(var, val) => {
            let r = vec![Asm::SetTo(CellName::new(var.0.as_str()), Value::new_num(val.0))];
            proof {
                assert(asms_view(r@) =~= seq![AsmV::SetTo(var@, ValueView::Num(val@))]);
            }
            r
        },
        Statement::Move(direction) => {
            proof {
                reveal_strlit("__cell_size");
                assert("__cell_size"@ =~= cell_size_name());
            }
            match direction {
                Direction::Right => {
                    let r = vec![Asm::Rs(Value::new_const("__cell_size"))];
                    proof {
                        assert(asms_view(r@) =~= seq![AsmV::Rs(ValueView::Const(cell_size_name()))]);
                    }
                    r
                },
                Direction::Left => {
                    let r = vec![Asm::Ls(Value::new_const("__cell_size"))];
                    proof {
                        assert(asms_view(r@) =~= seq![AsmV::Ls(ValueView::Const(cell_size_name()))]);
                    }
                    r
                },
            }
        },
        Statement::WHILE(condition, func) => {
            let body = statements_to_asm(&func.0);
            generate_while(condition, body)
        },
        Statement::IF(condition, func_if, func_else) => {
            let tb = statements_to_asm(&func_if.0);
            let eb = match func_else {
                Some(fe) => Some(statements_to_asm(&fe.0)),
                None => None,
            };
            let empty_flag: Vec<(&str, u8)> = Vec::new();
            proof {
                assert(sets_view(empty_flag@) =~= Seq::<(Seq<char>, u8)>::empty());
            }
            generate_if_else(condition, tb, eb, empty_flag)
        },
    }
}

/// Lowers a statement sequence.
pub fn statements_to_asm(statements: &Vec<Statement>) -> (r: Vec<Asm>)
    ensures
        asms_view(r@) == gen_stmts(stmts_view(statements@)),
    decreases statements@,
{
    let mut r: Vec<Asm> = Vec::new();
    proof {
        assert(stmts_view(statements@.subrange(0, 0)) =~= Seq::<StmtV>::empty());
        assert(asms_view(r@) =~= Seq::<AsmV>::empty());
    }
    let mut i: usize = 0;
    while i < statements.len()
        invariant
            0 <= i <= statements.len(),
            asms_view(r@) == gen_stmts(stmts_view(statements@.subrange(0, i as int))),
        decreases statements@.len() - i,
    {
        let mut piece = statement_to_asm(&statements[i]);
        let ghost pv = asms_view(piece@);
        let ghost old_r = asms_view(r@);
        r.append(&mut piece);
        proof {
            let pre = statements@.subrange(0, i as int);
            let nxt = statements@.subrange(0, (i + 1) as int);
            assert(nxt.drop_last() =~= pre);
            assert(stmts_view(nxt).drop_last() =~= stmts_view(pre));
            assert(asms_view(r@) =~= old_r + pv);
            assert(asms_view(r@) =~= gen_stmts(stmts_view(nxt)));
        }
        i = i + 1;
    }
    proof {
        assert(statements@.subrange(0, statements@.len() as int) =~= statements@);
    }
    r
}

/// Lowers a whole program.
pub fn generate(tree: &AST) -> (r: Vec<Asm>)
    ensures
        asms_view(r@) == gen_stmts(tree@),
{
    statements_to_asm(tree.statements())
}


/// The variable a comparison reads.
pub open spec fn cmp_var(c: CmpV) -> Seq<char> {
    match c {
        CmpV::Eq(v, _) => v,
        CmpV::Ne(v, _) => v,
    }
}

/// The variables a condition reads, in order of occurrence.
pub open spec fn vars_of_cmps(cs: Seq<CmpV>) -> Seq<Seq<char>> {
    cs.map_values(|c: CmpV| cmp_var(c))
}

/// The variables a statement references, in order of occurrence, with
/// repetitions.
pub open spec fn vars_of_stmt(s: StmtV) -> Seq<Seq<char>>
    decreases s,
{
    match s {
        StmtV::Input(v) => seq![v],
        StmtV::Output(v) => seq![v],
        StmtV::Assign(v, _) => seq![v],
        StmtV::Move(_) => Seq::empty(),
        StmtV::While(cs, body) => vars_of_cmps(cs) + vars_of_stmts(body),
        StmtV::If(cs, tb, eb) => vars_of_cmps(cs) + vars_of_stmts(tb) + (match eb {
            Some(b) => vars_of_stmts(b),
            None => Seq::empty(),
        }),
    }
}

pub open spec fn vars_of_stmts(ss: Seq<StmtV>) -> Seq<Seq<char>>
    decreases ss,
{
    if ss.len() == 0 {
        Seq::empty()
    } else {
        vars_of_stmts(ss.drop_last()) + vars_of_stmt(ss.last())
    }
}

/// The first occurrence of each name, in order.
pub open spec fn dedup_firsts(xs: Seq<Seq<char>>) -> Seq<Seq<char>>
    decreases xs,
{
    if xs.len() == 0 {
        Seq::empty()
    } else {
        let prior = dedup_firsts(xs.drop_last());
        if prior.contains(xs.last()) {
            prior
        } else {
            prior.push(xs.last())
        }
    }
}

/// The distinct user variables of a program, in first-reference order.
pub open spec fn list_vars_spec(ss: Seq<StmtV>) -> Seq<Seq<char>> {
    dedup_firsts(vars_of_stmts(ss))
}

/// The symbol table order: the user variables followed by the reserved
/// names; a name's cell index is its position here.
pub open spec fn allocation(ss: Seq<StmtV>) -> Seq<Seq<char>> {
    list_vars_spec(ss) + reserved_names()
}

/// Some user variable collides with a reserved name.
pub open spec fn reserved_collision(vars: Seq<Seq<char>>) -> bool {
    exists|j: int| 0 <= j < reserved_names().len() && vars.contains(#[trigger] reserved_names()[j])
}

fn contains_str(v: &Vec<String>, s: &str) -> (r: bool)
    ensures
        r == strs_view(v@).contains(s@),
{
    let mut i: usize = 0;
    while i < v.len()
        invariant
            0 <= i <= v.len(),
            forall|j: int| 0 <= j < i ==> strs_view(v@)[j] != s@,
        decreases v.len() - i,
    {
        if str_eq(v[i].as_str(), s) {
            assert(strs_view(v@)[i as int] == s@);
            return true;
        }
        i = i + 1;
    }
    proof {
        assert(forall|j: int| 0 <= j < strs_view(v@).len() ==> strs_view(v@)[j] != s@);
    }
    false
}

fn collect_vars_cmps(cs: &Vec<Compare>, acc: &mut Vec<String>)
    ensures
        strs_view(final(acc)@) == strs_view(old(acc)@) + vars_of_cmps(cmps_view(cs@)),
{
    let ghost base = strs_view(old(acc)@);
    let mut i: usize = 0;
    proof {
        assert(base + vars_of_cmps(cmps_view(cs@.subrange(0, 0))) =~= base);
    }
    while i < cs.len()
        invariant
            0 <= i <= cs.len(),
            strs_view(acc@) == base + vars_of_cmps(cmps_view(cs@.subrange(0, i as int))),
        decreases cs.len() - i,
    {
        let ghost mid_acc = acc@;
        match &cs[i] {
            Compare::EQ(v, _) => {
                acc.push(v.0.clone());
                proof {
                    assert(cmp_var(cs@[i as int]@) == v@);
                }
            },
            Compare::NE(v, _) => {
                acc.push(v.0.clone());
                proof {
                    assert(cmp_var(cs@[i as int]@) == v@);
                }
            },
        }
        proof {
            let pre = cmps_view(cs@.subrange(0, i as int));
            let nxt = cmps_view(cs@.subrange(0, (i + 1) as int));
            assert(nxt =~= pre.push(cs@[i as int]@));
            assert(vars_of_cmps(pre.push(cs@[i as int]@)) =~= vars_of_cmps(pre).push(
                cmp_var(cs@[i as int]@),
            ));
            assert(strs_view(acc@) =~= strs_view(mid_acc).push(cmp_var(cs@[i as int]@)));
            assert(strs_view(acc@) =~= base + vars_of_cmps(nxt));
        }
        i = i + 1;
    }
    proof {
        assert(cs@.subrange(0, cs@.len() as int) =~= cs@);
    }
}

fn collect_vars_stmt(s: &Statement, acc: &mut Vec<String>)
    ensures
        strs_view(final(acc)@) == strs_view(old(acc)@) + vars_of_stmt(s@),
    decreases *s,
{
    match s {
        Statement::Input(v) => {
            acc.push(v.0.clone());
            proof {
                assert(strs_view(acc@) =~= strs_view(old(acc)@) + vars_of_stmt(s@));
            }
        },
        Statement::Output(v) => {
            acc.push(v.0.clone());
            proof {
                assert(strs_view(acc@) =~= strs_view(old(acc)@) + vars_of_stmt(s@));
            }
        },
        Statement::Assign(v, _) => {
            acc.push(v.0.clone());
            proof {
                assert(strs_view(acc@) =~= strs_view(old(acc)@) + vars_of_stmt(s@));
            }
        },
        Statement::Move(_) => {
            proof {
                assert(strs_view(acc@) =~= strs_view(old(acc)@) + vars_of_stmt(s@));
            }
        },
        Statement::WHILE(cond, func) => {
            collect_vars_cmps(&cond.compares, acc);
            collect_vars_stmts(&func.0, acc);
            proof {
                assert(strs_view(acc@) =~= strs_view(old(acc)@) + vars_of_stmt(s@));
            }
        },
        Statement::IF(cond, func_if, func_else) => {
            collect_vars_cmps(&cond.compares, acc);
            collect_vars_stmts(&func_if.0, acc);
            match func_else {
                Some(fe) => {
                    collect_vars_stmts(&fe.0, acc);
                },
                None => {},
            }
            proof {
                assert(strs_view(acc@) =~= strs_view(old(acc)@) + vars_of_stmt(s@));
            }
        },
    }
}

fn collect_vars_stmts(ss: &Vec<Statement>, acc: &mut Vec<String>)
    ensures
        strs_view(final(acc)@) == strs_view(old(acc)@) + vars_of_stmts(stmts_view(ss@)),
    decreases ss@,
{
    let ghost base = strs_view(old(acc)@);
    let mut i: usize = 0;
    proof {
        assert(stmts_view(ss@.subrange(0, 0)) =~= Seq::<StmtV>::empty());
        assert(base + vars_of_stmts(Seq::empty()) =~= base);
    }
    while i < ss.len()
        invariant
            0 <= i <= ss.len(),
            strs_view(acc@) == base + vars_of_stmts(stmts_view(ss@.subrange(0, i as int))),
        decreases ss@.len() - i,
    {
        collect_vars_stmt(&ss[i], acc);
        proof {
            let pre = ss@.subrange(0, i as int);
            let nxt = ss@.subrange(0, (i + 1) as int);
            assert(nxt.drop_last() =~= pre);
            assert(stmts_view(nxt).drop_last() =~= stmts_view(pre));
            assert(strs_view(acc@) =~= base + vars_of_stmts(stmts_view(nxt)));
        }
        i = i + 1;
    }
    proof {
        assert(ss@.subrange(0, ss@.len() as int) =~= ss@);
    }
}

fn dedup_names(xs: &Vec<String>) -> (r: Vec<String>)
    ensures
        strs_view(r@) == dedup_firsts(strs_view(xs@)),
{
    let mut r: Vec<String> = Vec::new();
    let mut i: usize = 0;
    proof {
        assert(strs_view(xs@.subrange(0, 0)) =~= Seq::<Seq<char>>::empty());
        assert(strs_view(r@) =~= dedup_firsts(strs_view(xs@).subrange(0, 0)));
    }
    while i < xs.len()
        invariant
            0 <= i <= xs.len(),
            strs_view(r@) == dedup_firsts(strs_view(xs@).subrange(0, i as int)),
        decreases xs.len() - i,
    {
        proof {
            assert(strs_view(xs@).subrange(0, (i + 1) as int).drop_last() =~= strs_view(
                xs@,
            ).subrange(0, i as int));
            assert(strs_view(xs@).subrange(0, (i + 1) as int).last() == xs@[i as int]@);
        }
        if !contains_str(&r, xs[i].as_str()) {
            r.push(xs[i].clone());
            proof {
                assert(strs_view(r@) =~= strs_view(r@.drop_last()).push(xs@[i as int]@));
            }
        }
        i = i + 1;
    }
    proof {
        assert(strs_view(xs@).subrange(0, xs@.len() as int) =~= strs_view(xs@));
    }
    r
}

/// The distinct user variables referenced by a program, in first-reference
/// order.
pub fn list_variables(tree: &AST) -> (r: Vec<String>)
    ensures
        strs_view(r@) == list_vars_spec(tree@),
{
    let mut occurrences: Vec<String> = Vec::new();
    collect_vars_stmts(tree.statements(), &mut occurrences);
    proof {
        assert(strs_view(occurrences@) =~= vars_of_stmts(tree@));
    }
    dedup_names(&occurrences)
}

/// The generator's internal cell names, in allocation order.
pub fn reserved_variables() -> (r: Vec<String>)
    ensures
        strs_view(r@) == reserved_names(),
{
    let r = vec![
        String::from_str("tmp"),
        String::from_str("IF"),
        String::from_str("ELSE"),
        String::from_str("IS_EQ"),
        String::from_str("WHILE"),
    ];
    proof {
        reveal_strlit("tmp");
        reveal_strlit("IF");
        reveal_strlit("ELSE");
        reveal_strlit("IS_EQ");
        reveal_strlit("WHILE");
        assert("tmp"@ =~= temp_name());
        assert("IF"@ =~= if_flag_name());
        assert("ELSE"@ =~= else_flag_name());
        assert("IS_EQ"@ =~= is_eq_name());
        assert("WHILE"@ =~= while_flag_name());
        assert(strs_view(r@) =~= reserved_names());
    }
    r
}

/// Fails exactly when some user variable is named like an internal cell.
pub fn check_reserved_variables(variables: &Vec<String>) -> (r: Result<(), CompileError>)
    ensures
        r is Ok <==> !reserved_collision(strs_view(variables@)),
        r is Err ==> r == Err::<(), CompileError>(CompileError::ReservedName),
{
    proof {
        reveal_strlit("tmp");
        reveal_strlit("IF");
        reveal_strlit("ELSE");
        reveal_strlit("IS_EQ");
        reveal_strlit("WHILE");
        assert("tmp"@ =~= temp_name());
        assert("IF"@ =~= if_flag_name());
        assert("ELSE"@ =~= else_flag_name());
        assert("IS_EQ"@ =~= is_eq_name());
        assert("WHILE"@ =~= while_flag_name());
    }
    if contains_str(variables, "tmp") {
        assert(reserved_names()[0] == temp_name());
        return Err(CompileError::ReservedName);
    }
    if contains_str(variables, "IF") {
        assert(reserved_names()[1] == if_flag_name());
        return Err(CompileError::ReservedName);
    }
    if contains_str(variables, "ELSE") {
        assert(reserved_names()[2] == else_flag_name());
        return Err(CompileError::ReservedName);
    }
    if contains_str(variables, "IS_EQ") {
        assert(reserved_names()[3] == is_eq_name());
        return Err(CompileError::ReservedName);
    }
    if contains_str(variables, "WHILE") {
        assert(reserved_names()[4] == while_flag_name());
        return Err(CompileError::ReservedName);
    }
    proof {
        assert forall|j: int| 0 <= j < reserved_names().len() implies !strs_view(
            variables@,
        ).contains(reserved_names()[j]) by {
            if j == 0 {
                assert(reserved_names()[j] == temp_name());
            } else if j == 1 {
                assert(reserved_names()[j] == if_flag_name());
            } else if j == 2 {
                assert(reserved_names()[j] == else_flag_name());
            } else if j == 3 {
                assert(reserved_names()[j] == is_eq_name());
            } else {
                assert(reserved_names()[j] == while_flag_name());
            }
        }
    }
    Ok(())
}

/// An operand as text: a number in decimal, a constant by its name.
pub open spec fn value_text(v: ValueView) -> Seq<char> {
    match v {
        ValueView::Num(n) => dec_str(n as int),
        ValueView::Const(s) => s,
    }
}

/// One operation as a line of the intermediate instruction text.
pub open spec fn asm_line(a: AsmV) -> Seq<char> {
    match a {
        AsmV::Define(v, val) => seq!['#', 'd', 'e', 'f', 'i', 'n', 'e', ' '] + v + seq![' ']
            + value_text(val),
        AsmV::Add(v, val) => seq!['a', 'd', 'd', ' '] + v + seq![' '] + value_text(val),
        AsmV::Sub(v, val) => seq!['s', 'u', 'b', ' '] + v + seq![' '] + value_text(val),
        AsmV::SetTo(v, val) => seq!['s', 'e', 't', ' '] + v + seq![' '] + value_text(val),
        AsmV::Rs(val) => seq!['r', 's', ' '] + value_text(val),
        AsmV::Ls(val) => seq!['l', 's', ' '] + value_text(val),
        AsmV::Loop(v) => seq!['l', 'o', 'o', 'p', ' '] + v,
        AsmV::End(v) => seq!['e', 'n', 'd', ' '] + v,
        AsmV::Copy(src, ds) => seq!['c', 'o', 'p', 'y', ' '] + src + seq![' '] + join_sp(ds),
        AsmV::Read(v) => seq!['r', 'e', 'a', 'd', ' '] + v,
        AsmV::Write(v) => seq!['w', 'r', 'i', 't', 'e', ' '] + v,
    }
}

/// A `#define` line binding a name to a number.
pub open spec fn define_line(name: Seq<char>, idx: int) -> Seq<char> {
    seq!['#', 'd', 'e', 'f', 'i', 'n', 'e', ' '] + name + seq![' '] + dec_str(idx)
}

/// The `#define` lines of a symbol table: each name bound to its position.
pub open spec fn define_lines(names: Seq<Seq<char>>) -> Seq<char> {
    join_nl(Seq::new(names.len(), |i: int| define_line(names[i], i)))
}

/// What the generator emits for a program: the symbol table, the stride
/// constant, and the lowered operations, one per line.
pub open spec fn code_gen_text(ss: Seq<StmtV>) -> Seq<char> {
    define_lines(allocation(ss)) + seq!['\n'] + define_line(
        cell_size_name(),
        allocation(ss).len() as int,
    ) + seq!['\n'] + join_nl(gen_stmts(ss).map_values(|a: AsmV| asm_line(a)))
}

/// What generation yields: the full text, or a reserved-name error exactly
/// when a user variable is named like an internal cell.
pub open spec fn code_gen_spec(ss: Seq<StmtV>) -> Result<Seq<char>, CompileError> {
    if reserved_collision(list_vars_spec(ss)) {
        Err(CompileError::ReservedName)
    } else {
        Ok(code_gen_text(ss))
    }
}

fn value_to_text(v: &Value) -> (r: String)
    ensures
        r@ == value_text(v@),
{
    match v {
        Value::Num(n) => usize_to_dec(*n as usize),
        Value::Const(s) => s.clone(),
    }
}

/// Renders one operation as a line of the intermediate instruction text.
pub fn asm_to_line(a: &Asm) -> (r: String)
    ensures
        r@ == asm_line(a@),
{
    proof {
        reveal_strlit("#define ");
        reveal_strlit("add ");
        reveal_strlit("sub ");
        reveal_strlit("set ");
        reveal_strlit("rs ");
        reveal_strlit("ls ");
        reveal_strlit("loop ");
        reveal_strlit("end ");
        reveal_strlit("copy ");
        reveal_strlit("read ");
        reveal_strlit("write ");
        assert("#define "@ =~= seq!['#', 'd', 'e', 'f', 'i', 'n', 'e', ' ']);
        assert("add "@ =~= seq!['a', 'd', 'd', ' ']);
        assert("sub "@ =~= seq!['s', 'u', 'b', ' ']);
        assert("set "@ =~= seq!['s', 'e', 't', ' ']);
        assert("rs "@ =~= seq!['r', 's', ' ']);
        assert("ls "@ =~= seq!['l', 's', ' ']);
        assert("loop "@ =~= seq!['l', 'o', 'o', 'p', ' ']);
        assert("end "@ =~= seq!['e', 'n', 'd', ' ']);
        assert("copy "@ =~= seq!['c', 'o', 'p', 'y', ' ']);
        assert("read "@ =~= seq!['r', 'e', 'a', 'd', ' ']);
        assert("write "@ =~= seq!['w', 'r', 'i', 't', 'e', ' ']);
    }
    match a {
        Asm::Define(v, val) => {
            let mut s = String::from_str("#define ");
            s.append(v.as_str());
            push_char(&mut s, ' ');
            let t = value_to_text(val);
            s.append(t.as_str());
            proof {
                assert(s@ =~= asm_line(a@));
            }
            s
        },
        Asm::Add(v, val) => {
            let mut s = String::from_str("add ");
            s.append(v.as_str());
            push_char(&mut s, ' ');
            let t = value_to_text(val);
            s.append(t.as_str());
            proof {
                assert(s@ =~= asm_line(a@));
            }
            s
        },
        Asm::Sub(v, val) => {
            let mut s = String::from_str("sub ");
            s.append(v.as_str());
            push_char(&mut s, ' ');
            let t = value_to_text(val);
            s.append(t.as_str());
            proof {
                assert(s@ =~= asm_line(a@));
            }
            s
        },
        Asm::SetTo(v, val) => {
            let mut s = String::from_str("set ");
            s.append(v.as_str());
            push_char(&mut s, ' ');
            let t = value_to_text(val);
            s.append(t.as_str());
            proof {
                assert(s@ =~= asm_line(a@));
            }
            s
        },
        Asm::Rs(val) => {
            let mut s = String::from_str("rs ");
            let t = value_to_text(val);
            s.append(t.as_str());
            proof {
                assert(s@ =~= asm_line(a@));
            }
            s
        },
        Asm::Ls(val) => {
            let mut s = String::from_str("ls ");
            let t = value_to_text(val);
            s.append(t.as_str());
            proof {
                assert(s@ =~= asm_line(a@));
            }
            s
        },
        Asm::Loop(v) => {
            let mut s = String::from_str("loop ");
            s.append(v.as_str());
            proof {
                assert(s@ =~= asm_line(a@));
            }
            s
        },
        Asm::End(v) => {
            let mut s = String::from_str("end ");
            s.append(v.as_str());
            proof {
                assert(s@ =~= asm_line(a@));
            }
            s
        },
        Asm::Copy(src, ds) => {
            let mut s = String::from_str("copy ");
            s.append(src.as_str());
            push_char(&mut s, ' ');
            let ghost dv = names_view(ds@);
            let ghost head = s@;
            let mut k: usize = 0;
            proof {
                assert(join_sp(dv.subrange(0, 0)) =~= Seq::<char>::empty());
                assert(s@ =~= head + join_sp(dv.subrange(0, 0)));
            }
            while k < ds.len()
                invariant
                    0 <= k <= ds.len(),
                    dv == names_view(ds@),
                    dv.len() == ds.len(),
                    s@ == head + join_sp(dv.subrange(0, k as int)),
                decreases ds.len() - k,
            {
                if k > 0 {
                    push_char(&mut s, ' ');
                }
                s.append(ds[k].as_str());
                proof {
                    let pre = dv.subrange(0, k as int);
                    let nxt = dv.subrange(0, (k + 1) as int);
                    assert(nxt.drop_last() =~= pre);
                    assert(nxt.last() == ds@[k as int]@);
                    assert(s@ =~= head + join_sp(nxt));
                }
                k = k + 1;
            }
            proof {
                assert(dv.subrange(0, ds@.len() as int) =~= dv);
                assert(s@ =~= asm_line(a@));
            }
            s
        },
        Asm::Read(v) => {
            let mut s = String::from_str("read ");
            s.append(v.as_str());
            proof {
                assert(s@ =~= asm_line(a@));
            }
            s
        },
        Asm::Write(v) => {
            let mut s = String::from_str("write ");
            s.append(v.as_str());
            proof {
                assert(s@ =~= asm_line(a@));
            }
            s
        },
    }
}

/// Generation: collects and allocates the variables, refuses reserved
/// names, and renders the symbol table and the lowered program as text.
pub fn code_gen(tree: &AST) -> (r: Result<String, CompileError>)
    ensures
        r matches Ok(out) ==> code_gen_spec(tree@) == Ok::<_, CompileError>(out@),
        r matches Err(e) ==> code_gen_spec(tree@) == Err::<Seq<char>, _>(e),
{
    let variables = list_variables(tree);
    match check_reserved_variables(&variables) {
        Err(e) => {
            return Err(e);
        },
        Ok(()) => {},
    }
    let mut names = variables;
    let mut rest = reserved_variables();
    names.append(&mut rest);
    let ghost nv = strs_view(names@);
    proof {
        assert(nv =~= allocation(tree@));
    }
    let ghost defs = Seq::new(nv.len(), |i: int| define_line(nv[i], i));
    let mut out = String::new();
    let mut i: usize = 0;
    proof {
        assert(out@ =~= join_nl(defs.subrange(0, 0)));
    }
    while i < names.len()
        invariant
            0 <= i <= names.len(),
            nv == strs_view(names@),
            nv.len() == names.len(),
            defs == Seq::new(nv.len(), |i: int| define_line(nv[i], i)),
            out@ == join_nl(defs.subrange(0, i as int)),
        decreases names.len() - i,
    {
        if i > 0 {
            push_char(&mut out, '\n');
        }
        proof {
            reveal_strlit("#define ");
            assert("#define "@ =~= seq!['#', 'd', 'e', 'f', 'i', 'n', 'e', ' ']);
        }
        out.append("#define ");
        out.append(names[i].as_str());
        push_char(&mut out, ' ');
        let d = usize_to_dec(i);
        out.append(d.as_str());
        proof {
            let pre = defs.subrange(0, i as int);
            let nxt = defs.subrange(0, (i + 1) as int);
            assert(nxt.drop_last() =~= pre);
            assert(nxt.last() == define_line(nv[i as int], i as int));
            assert(out@ =~= join_nl(nxt));
        }
        i = i + 1;
    }
    proof {
        assert(defs.subrange(0, defs.len() as int) =~= defs);
        assert(out@ == define_lines(nv));
    }
    push_char(&mut out, '\n');
    proof {
        reveal_strlit("#define __cell_size ");
        reveal_strlit("__cell_size");
        assert("__cell_size"@ =~= cell_size_name());
        assert("#define __cell_size "@ =~= seq!['#', 'd', 'e', 'f', 'i', 'n', 'e', ' ']
            + cell_size_name() + seq![' ']);
    }
    out.append("#define __cell_size ");
    let n = usize_to_dec(names.len());
    out.append(n.as_str());
    push_char(&mut out, '\n');
    proof {
        assert(out@ =~= define_lines(nv) + seq!['\n'] + define_line(
            cell_size_name(),
            nv.len() as int,
        ) + seq!['\n']);
    }
    let ghost head = out@;
    let ops = generate(tree);
    let ghost lines = gen_stmts(tree@).map_values(|a: AsmV| asm_line(a));
    let mut k: usize = 0;
    proof {
        assert(join_nl(lines.subrange(0, 0)) =~= Seq::<char>::empty());
        assert(out@ =~= head + join_nl(lines.subrange(0, 0)));
    }
    while k < ops.len()
        invariant
            0 <= k <= ops.len(),
            asms_view(ops@) == gen_stmts(tree@),
            lines == gen_stmts(tree@).map_values(|a: AsmV| asm_line(a)),
            lines.len() == ops.len(),
            out@ == head + join_nl(lines.subrange(0, k as int)),
        decreases ops.len() - k,
    {
        if k > 0 {
            push_char(&mut out, '\n');
        }
        let line = asm_to_line(&ops[k]);
        out.append(line.as_str());
        proof {
            let pre = lines.subrange(0, k as int);
            let nxt = lines.subrange(0, (k + 1) as int);
            assert(nxt.drop_last() =~= pre);
            assert(ops@[k as int]@ == gen_stmts(tree@)[k as int]);
            assert(nxt.last() == asm_line(ops@[k as int]@));
            assert(out@ =~= head + join_nl(nxt));
        }
        k = k + 1;
    }
    proof {
        assert(lines.subrange(0, lines.len() as int) =~= lines);
        assert(out@ =~= code_gen_text(tree@));
    }
    Ok(out)
}


/// A statement that lowers to a single operation: input, output or
/// assignment.
pub open spec fn is_simple_stmt(s: StmtV) -> bool {
    s is Assign || s is Input || s is Output
}

/// Law: a program of assignments, inputs and outputs alone lowers to
/// exactly one operation per statement.
pub proof fn lemma_simple_program_length(ss: Seq<StmtV>)
    requires
        forall|i: int| 0 <= i < ss.len() ==> is_simple_stmt(#[trigger] ss[i]),
    ensures
        gen_stmts(ss).len() == ss.len(),
    decreases ss.len(),
{
    if ss.len() > 0 {
        assert(forall|i: int|
            0 <= i < ss.drop_last().len() ==> is_simple_stmt(#[trigger] ss.drop_last()[i]));
        lemma_simple_program_length(ss.drop_last());
        let s = ss.last();
        assert(is_simple_stmt(s));
        match s {
            StmtV::Assign(v, n) => {
                assert(gen_stmt(s).len() == 1);
            },
            StmtV::Input(v) => {
                assert(gen_stmt(s).len() == 1);
            },
            StmtV::Output(v) => {
                assert(gen_stmt(s).len() == 1);
            },
            _ => {},
        }
    }
}

/// Law: lowering `if (v != n) { body }` with no else emits exactly, in
/// order: the non-destructive copy of `v` into the scratch cell and the
/// flag, the restoring copy, the subtraction of `n` from the flag alone, a
/// loop start on the flag, the lowered body, the flag reset, and the loop
/// end on the flag.
pub proof fn lemma_if_not_equal_shape(v: Seq<char>, n: u8, body: Seq<StmtV>)
    ensures
        gen_stmt(StmtV::If(seq![CmpV::Ne(v, n)], body, None)) == seq![
            AsmV::Copy(v, seq![temp_name(), if_flag_name()]),
            AsmV::Copy(temp_name(), seq![v]),
            AsmV::Sub(if_flag_name(), ValueView::Num(n)),
            AsmV::Loop(if_flag_name()),
        ] + gen_stmts(body) + seq![
            AsmV::SetTo(if_flag_name(), ValueView::Num(0)),
            AsmV::End(if_flag_name()),
        ],
{
    let cs = seq![CmpV::Ne(v, n)];
    let low = gen_stmts(body);
    assert(gen_stmt(StmtV::If(cs, body, None)) == gen_if(cs, low, Seq::empty()));
    lemma_gen_if_not_equal(v, n, low, Seq::empty());
    assert(flag_sets(Seq::<(Seq<char>, u8)>::empty()) =~= Seq::<AsmV>::empty());
    assert(seq![
        AsmV::Copy(v, seq![temp_name(), if_flag_name()]),
        AsmV::Copy(temp_name(), seq![v]),
        AsmV::Sub(if_flag_name(), ValueView::Num(n)),
        AsmV::Loop(if_flag_name()),
    ] + low + flag_sets(Seq::empty()) + seq![
        AsmV::SetTo(if_flag_name(), ValueView::Num(0)),
        AsmV::End(if_flag_name()),
    ] =~= seq![
        AsmV::Copy(v, seq![temp_name(), if_flag_name()]),
        AsmV::Copy(temp_name(), seq![v]),
        AsmV::Sub(if_flag_name(), ValueView::Num(n)),
        AsmV::Loop(if_flag_name()),
    ] + low + seq![AsmV::SetTo(if_flag_name(), ValueView::Num(0)), AsmV::End(if_flag_name())]);
}

/// Law: lowering `if (v == n) { body }` is not the sign-flipped mirror of
/// the not-equal case: it arms the equality flag, runs the not-equal
/// pattern to clear that flag when the values differ, and then gates the
/// body in a second loop on the equality flag.
pub proof fn lemma_if_equal_shape(v: Seq<char>, n: u8, body: Seq<StmtV>)
    ensures
        gen_stmt(StmtV::If(seq![CmpV::Eq(v, n)], body, None)) == seq![
            AsmV::SetTo(is_eq_name(), ValueView::Num(1)),
            AsmV::Copy(v, seq![temp_name(), if_flag_name()]),
            AsmV::Copy(temp_name(), seq![v]),
            AsmV::Sub(if_flag_name(), ValueView::Num(n)),
            AsmV::Loop(if_flag_name()),
            AsmV::SetTo(is_eq_name(), ValueView::Num(0)),
            AsmV::SetTo(if_flag_name(), ValueView::Num(0)),
            AsmV::End(if_flag_name()),
            AsmV::Loop(is_eq_name()),
        ] + gen_stmts(body) + seq![
            AsmV::SetTo(is_eq_name(), ValueView::Num(0)),
            AsmV::End(is_eq_name()),
        ],
{
    let cs = seq![CmpV::Eq(v, n)];
    let low = gen_stmts(body);
    assert(gen_stmt(StmtV::If(cs, body, None)) == gen_if(cs, low, Seq::empty()));
    lemma_gen_if_equal(v, n, low, Seq::empty());
    assert(flag_sets(Seq::<(Seq<char>, u8)>::empty()) =~= Seq::<AsmV>::empty());
    assert(seq![
        AsmV::SetTo(is_eq_name(), ValueView::Num(1)),
        AsmV::Copy(v, seq![temp_name(), if_flag_name()]),
        AsmV::Copy(temp_name(), seq![v]),
        AsmV::Sub(if_flag_name(), ValueView::Num(n)),
        AsmV::Loop(if_flag_name()),
        AsmV::SetTo(is_eq_name(), ValueView::Num(0)),
        AsmV::SetTo(if_flag_name(), ValueView::Num(0)),
        AsmV::End(if_flag_name()),
        AsmV::Loop(is_eq_name()),
    ] + low + flag_sets(Seq::empty()) + seq![
        AsmV::SetTo(is_eq_name(), ValueView::Num(0)),
        AsmV::End(is_eq_name()),
    ] =~= seq![
        AsmV::SetTo(is_eq_name(), ValueView::Num(1)),
        AsmV::Copy(v, seq![temp_name(), if_flag_name()]),
        AsmV::Copy(temp_name(), seq![v]),
        AsmV::Sub(if_flag_name(), ValueView::Num(n)),
        AsmV::Loop(if_flag_name()),
        AsmV::SetTo(is_eq_name(), ValueView::Num(0)),
        AsmV::SetTo(if_flag_name(), ValueView::Num(0)),
        AsmV::End(if_flag_name()),
        AsmV::Loop(is_eq_name()),
    ] + low + seq![AsmV::SetTo(is_eq_name(), ValueView::Num(0)), AsmV::End(is_eq_name())]);
}

/// The number of loop starts in an operation sequence.
pub open spec fn count_loop_starts(asms: Seq<AsmV>) -> int
    decreases asms.len(),
{
    if asms.len() == 0 {
        0
    } else {
        count_loop_starts(asms.drop_last()) + (if asms.last() is Loop {
            1int
        } else {
            0int
        })
    }
}

/// The number of loop ends in an operation sequence.
pub open spec fn count_loop_ends(asms: Seq<AsmV>) -> int
    decreases asms.len(),
{
    if asms.len() == 0 {
        0
    } else {
        count_loop_ends(asms.drop_last()) + (if asms.last() is End {
            1int
        } else {
            0int
        })
    }
}

pub proof fn lemma_count_loop_starts_concat(a: Seq<AsmV>, b: Seq<AsmV>)
    ensures
        count_loop_starts(a + b) == count_loop_starts(a) + count_loop_starts(b),
    decreases b.len(),
{
    if b.len() == 0 {
        assert(a + b =~= a);
    } else {
        lemma_count_loop_starts_concat(a, b.drop_last());
        assert((a + b).drop_last() =~= a + b.drop_last());
    }
}

pub proof fn lemma_count_loop_ends_concat(a: Seq<AsmV>, b: Seq<AsmV>)
    ensures
        count_loop_ends(a + b) == count_loop_ends(a) + count_loop_ends(b),
    decreases b.len(),
{
    if b.len() == 0 {
        assert(a + b =~= a);
    } else {
        lemma_count_loop_ends_concat(a, b.drop_last());
        assert((a + b).drop_last() =~= a + b.drop_last());
    }
}

proof fn lemma_flag_sets_no_loops(sets: Seq<(Seq<char>, u8)>)
    ensures
        count_loop_starts(flag_sets(sets)) == 0,
        count_loop_ends(flag_sets(sets)) == 0,
    decreases sets.len(),
{
    if sets.len() == 0 {
        assert(flag_sets(sets) =~= Seq::<AsmV>::empty());
    } else {
        lemma_flag_sets_no_loops(sets.drop_last());
        assert(flag_sets(sets).drop_last() =~= flag_sets(sets.drop_last()));
        assert(flag_sets(sets).last() == AsmV::SetTo(sets.last().0, ValueView::Num(sets.last().1)));
    }
}

/// Law (the not-equal lowering, in full generality): a single not-equal
/// term around any already-lowered body and any trailing flag assignments
/// emits exactly, in order: the non-destructive copy of the variable into
/// the scratch cell and the flag, the restoring copy, the subtraction of
/// the literal from the flag alone, a loop start on the flag, the body,
/// the flag assignments, the flag reset, and the loop end on the flag.
pub proof fn lemma_gen_if_not_equal(v: Seq<char>, n: u8, body: Seq<AsmV>, sets: Seq<(Seq<char>, u8)>)
    ensures
        gen_if(seq![CmpV::Ne(v, n)], body, sets) == seq![
            AsmV::Copy(v, seq![temp_name(), if_flag_name()]),
            AsmV::Copy(temp_name(), seq![v]),
            AsmV::Sub(if_flag_name(), ValueView::Num(n)),
            AsmV::Loop(if_flag_name()),
        ] + body + flag_sets(sets) + seq![
            AsmV::SetTo(if_flag_name(), ValueView::Num(0)),
            AsmV::End(if_flag_name()),
        ],
{
    assert(gen_if(seq![CmpV::Ne(v, n)], body, sets) =~= seq![
        AsmV::Copy(v, seq![temp_name(), if_flag_name()]),
        AsmV::Copy(temp_name(), seq![v]),
        AsmV::Sub(if_flag_name(), ValueView::Num(n)),
        AsmV::Loop(if_flag_name()),
    ] + body + flag_sets(sets) + seq![
        AsmV::SetTo(if_flag_name(), ValueView::Num(0)),
        AsmV::End(if_flag_name()),
    ]);
}

/// Law (the equal lowering, in full generality): a single equal term is
/// not the sign-flipped mirror of the not-equal case. The equality flag is
/// armed, the not-equal pattern clears it when the values differ, and only
/// then is the body gated in a second loop keyed on the equality flag,
/// with the flag assignments again in the innermost position.
pub proof fn lemma_gen_if_equal(v: Seq<char>, n: u8, body: Seq<AsmV>, sets: Seq<(Seq<char>, u8)>)
    ensures
        gen_if(seq![CmpV::Eq(v, n)], body, sets) == seq![
            AsmV::SetTo(is_eq_name(), ValueView::Num(1)),
            AsmV::Copy(v, seq![temp_name(), if_flag_name()]),
            AsmV::Copy(temp_name(), seq![v]),
            AsmV::Sub(if_flag_name(), ValueView::Num(n)),
            AsmV::Loop(if_flag_name()),
            AsmV::SetTo(is_eq_name(), ValueView::Num(0)),
            AsmV::SetTo(if_flag_name(), ValueView::Num(0)),
            AsmV::End(if_flag_name()),
            AsmV::Loop(is_eq_name()),
        ] + body + flag_sets(sets) + seq![
            AsmV::SetTo(is_eq_name(), ValueView::Num(0)),
            AsmV::End(is_eq_name()),
        ],
{
    assert(flag_sets(seq![(is_eq_name(), 1u8)]) =~= seq![
        AsmV::SetTo(is_eq_name(), ValueView::Num(1)),
    ]);
    assert(flag_sets(seq![(is_eq_name(), 0u8)]) =~= seq![
        AsmV::SetTo(is_eq_name(), ValueView::Num(0)),
    ]);
    assert(gen_if(seq![CmpV::Eq(v, n)], body, sets) =~= seq![
        AsmV::SetTo(is_eq_name(), ValueView::Num(1)),
        AsmV::Copy(v, seq![temp_name(), if_flag_name()]),
        AsmV::Copy(temp_name(), seq![v]),
        AsmV::Sub(if_flag_name(), ValueView::Num(n)),
        AsmV::Loop(if_flag_name()),
        AsmV::SetTo(is_eq_name(), ValueView::Num(0)),
        AsmV::SetTo(if_flag_name(), ValueView::Num(0)),
        AsmV::End(if_flag_name()),
        AsmV::Loop(is_eq_name()),
    ] + body + flag_sets(sets) + seq![
        AsmV::SetTo(is_eq_name(), ValueView::Num(0)),
        AsmV::End(is_eq_name()),
    ]);
}

/// Law: a single equal term costs two gating loop pairs where a single
/// not-equal term costs one, whatever the body and the trailing flag
/// assignments: a body with `k` loop pairs of its own gives `2 + k`
/// (equal) or `1 + k` (not equal) loop starts, and as many loop ends.
#[verifier::rlimit(100)]
pub proof fn lemma_single_term_loop_counts(
    v: Seq<char>,
    n: u8,
    body: Seq<AsmV>,
    sets: Seq<(Seq<char>, u8)>,
)
    ensures
        count_loop_starts(gen_if(seq![CmpV::Ne(v, n)], body, sets)) == 1 + count_loop_starts(body),
        count_loop_ends(gen_if(seq![CmpV::Ne(v, n)], body, sets)) == 1 + count_loop_ends(body),
        count_loop_starts(gen_if(seq![CmpV::Eq(v, n)], body, sets)) == 2 + count_loop_starts(body),
        count_loop_ends(gen_if(seq![CmpV::Eq(v, n)], body, sets)) == 2 + count_loop_ends(body),
{
    lemma_flag_sets_no_loops(sets);
    lemma_gen_if_not_equal(v, n, body, sets);
    let ne_pre = seq![
        AsmV::Copy(v, seq![temp_name(), if_flag_name()]),
        AsmV::Copy(temp_name(), seq![v]),
        AsmV::Sub(if_flag_name(), ValueView::Num(n)),
        AsmV::Loop(if_flag_name()),
    ];
    let ne_post = seq![AsmV::SetTo(if_flag_name(), ValueView::Num(0)), AsmV::End(if_flag_name())];
    assert(count_loop_starts(ne_pre) == 1) by {
        reveal_with_fuel(count_loop_starts, 6);
    }
    assert(count_loop_ends(ne_pre) == 0) by {
        reveal_with_fuel(count_loop_ends, 6);
    }
    assert(count_loop_starts(ne_post) == 0) by {
        reveal_with_fuel(count_loop_starts, 4);
    }
    assert(count_loop_ends(ne_post) == 1) by {
        reveal_with_fuel(count_loop_ends, 4);
    }
    lemma_count_loop_starts_concat(ne_pre, body);
    lemma_count_loop_starts_concat(ne_pre + body, flag_sets(sets));
    lemma_count_loop_starts_concat(ne_pre + body + flag_sets(sets), ne_post);
    lemma_count_loop_ends_concat(ne_pre, body);
    lemma_count_loop_ends_concat(ne_pre + body, flag_sets(sets));
    lemma_count_loop_ends_concat(ne_pre + body + flag_sets(sets), ne_post);
    lemma_gen_if_equal(v, n, body, sets);
    let eq_pre = seq![
        AsmV::SetTo(is_eq_name(), ValueView::Num(1)),
        AsmV::Copy(v, seq![temp_name(), if_flag_name()]),
        AsmV::Copy(temp_name(), seq![v]),
        AsmV::Sub(if_flag_name(), ValueView::Num(n)),
        AsmV::Loop(if_flag_name()),
        AsmV::SetTo(is_eq_name(), ValueView::Num(0)),
        AsmV::SetTo(if_flag_name(), ValueView::Num(0)),
        AsmV::End(if_flag_name()),
        AsmV::Loop(is_eq_name()),
    ];
    let eq_post = seq![AsmV::SetTo(is_eq_name(), ValueView::Num(0)), AsmV::End(is_eq_name())];
    assert(count_loop_starts(eq_pre) == 2) by {
        reveal_with_fuel(count_loop_starts, 11);
    }
    assert(count_loop_ends(eq_pre) == 1) by {
        reveal_with_fuel(count_loop_ends, 11);
    }
    assert(count_loop_starts(eq_post) == 0) by {
        reveal_with_fuel(count_loop_starts, 4);
    }
    assert(count_loop_ends(eq_post) == 1) by {
        reveal_with_fuel(count_loop_ends, 4);
    }
    lemma_count_loop_starts_concat(eq_pre, body);
    lemma_count_loop_starts_concat(eq_pre + body, flag_sets(sets));
    lemma_count_loop_starts_concat(eq_pre + body + flag_sets(sets), eq_post);
    lemma_count_loop_ends_concat(eq_pre, body);
    lemma_count_loop_ends_concat(eq_pre + body, flag_sets(sets));
    lemma_count_loop_ends_concat(eq_pre + body + flag_sets(sets), eq_post);
}

/// Law: at the statement level, a single equality condition costs two
/// gating loop pairs where a single inequality condition costs one.
pub proof fn lemma_equal_needs_two_loops(v: Seq<char>, n: u8, body: Seq<StmtV>)
    ensures
        count_loop_starts(gen_stmt(StmtV::If(seq![CmpV::Eq(v, n)], body, None))) == 2
            + count_loop_starts(gen_stmts(body)),
        count_loop_ends(gen_stmt(StmtV::If(seq![CmpV::Eq(v, n)], body, None))) == 2
            + count_loop_ends(gen_stmts(body)),
        count_loop_starts(gen_stmt(StmtV::If(seq![CmpV::Ne(v, n)], body, None))) == 1
            + count_loop_starts(gen_stmts(body)),
        count_loop_ends(gen_stmt(StmtV::If(seq![CmpV::Ne(v, n)], body, None))) == 1
            + count_loop_ends(gen_stmts(body)),
{
    let low = gen_stmts(body);
    assert(gen_stmt(StmtV::If(seq![CmpV::Eq(v, n)], body, None)) == gen_if(
        seq![CmpV::Eq(v, n)],
        low,
        Seq::empty(),
    ));
    assert(gen_stmt(StmtV::If(seq![CmpV::Ne(v, n)], body, None)) == gen_if(
        seq![CmpV::Ne(v, n)],
        low,
        Seq::empty(),
    ));
    lemma_single_term_loop_counts(v, n, low, Seq::empty());
}

/// Law: with several AND terms, the lowering of the remaining terms, and so
/// the body, stands strictly inside the first term's gating loop; by
/// induction the last term's evaluation sits inside every earlier term's
/// loop, which is the short-circuit ordering. The trailing flag
/// assignments are handed only to the innermost level: every outer gate
/// closes with an empty assignment list.
pub proof fn lemma_short_circuit(cs: Seq<CmpV>, body: Seq<AsmV>, sets: Seq<(Seq<char>, u8)>)
    ensures
        cs.len() >= 2 ==> (match cs[0] {
            CmpV::Ne(v, n) => gen_if(cs, body, sets) == gen_set_ne(v, n, if_flag_name()) + seq![
                AsmV::Loop(if_flag_name()),
            ] + gen_if(cs.drop_first(), body, sets) + seq![
                AsmV::SetTo(if_flag_name(), ValueView::Num(0)),
                AsmV::End(if_flag_name()),
            ],
            CmpV::Eq(v, n) => gen_if(cs, body, sets) == seq![
                AsmV::SetTo(is_eq_name(), ValueView::Num(1)),
            ] + gen_set_ne(v, n, if_flag_name()) + seq![
                AsmV::Loop(if_flag_name()),
                AsmV::SetTo(is_eq_name(), ValueView::Num(0)),
                AsmV::SetTo(if_flag_name(), ValueView::Num(0)),
                AsmV::End(if_flag_name()),
                AsmV::Loop(is_eq_name()),
            ] + gen_if(cs.drop_first(), body, sets) + seq![
                AsmV::SetTo(is_eq_name(), ValueView::Num(0)),
                AsmV::End(is_eq_name()),
            ],
        }),
{
    if cs.len() >= 2 {
        assert(flag_sets(Seq::<(Seq<char>, u8)>::empty()) =~= Seq::<AsmV>::empty());
        assert(flag_sets(seq![(is_eq_name(), 1u8)]) =~= seq![
            AsmV::SetTo(is_eq_name(), ValueView::Num(1)),
        ]);
        assert(flag_sets(seq![(is_eq_name(), 0u8)]) =~= seq![
            AsmV::SetTo(is_eq_name(), ValueView::Num(0)),
        ]);
        match cs[0] {
            CmpV::Ne(v, n) => {
                assert(gen_if(cs, body, sets) =~= gen_set_ne(v, n, if_flag_name()) + seq![
                    AsmV::Loop(if_flag_name()),
                ] + gen_if(cs.drop_first(), body, sets) + seq![
                    AsmV::SetTo(if_flag_name(), ValueView::Num(0)),
                    AsmV::End(if_flag_name()),
                ]);
            },
            CmpV::Eq(v, n) => {
                assert(gen_if(cs, body, sets) =~= seq![
                    AsmV::SetTo(is_eq_name(), ValueView::Num(1)),
                ] + gen_set_ne(v, n, if_flag_name()) + seq![
                    AsmV::Loop(if_flag_name()),
                    AsmV::SetTo(is_eq_name(), ValueView::Num(0)),
                    AsmV::SetTo(if_flag_name(), ValueView::Num(0)),
                    AsmV::End(if_flag_name()),
                    AsmV::Loop(is_eq_name()),
                ] + gen_if(cs.drop_first(), body, sets) + seq![
                    AsmV::SetTo(is_eq_name(), ValueView::Num(0)),
                    AsmV::End(is_eq_name()),
                ]);
            },
        }
    }
}

/// The net effect of the duplication primitive on named cells: the source
/// is zeroed and every destination gains the source's value, cells wrapping
/// at 8 bits.
pub open spec fn copy_cells(src: u8, dests: Seq<u8>) -> (u8, Seq<u8>) {
    (0u8, dests.map_values(|d: u8| ((d + src) % 256) as u8))
}

/// Law: copying a source into a zeroed scratch cell and a zeroed
/// destination, then copying the scratch cell back, leaves the source
/// numerically unchanged and the destination holding the source's original
/// value, for every byte value of the source. This is the generator's
/// three-step non-destructive compare pattern.
pub proof fn lemma_copy_round_trip(src: u8, temp: u8, dest: u8)
    requires
        temp == 0,
        dest == 0,
    ensures
        ({
            let (src1, outs1) = copy_cells(src, seq![temp, dest]);
            let (temp2, outs2) = copy_cells(outs1[0], seq![src1]);
            outs2[0] == src && outs1[1] == src
        }),
{
    let (src1, outs1) = copy_cells(src, seq![temp, dest]);
    assert(outs1[0] == ((temp + src) % 256) as u8);
    assert(outs1[1] == ((dest + src) % 256) as u8);
    let (temp2, outs2) = copy_cells(outs1[0], seq![src1]);
    assert(outs2[0] == ((src1 + outs1[0]) % 256) as u8);
}

/// No name occurs twice.
pub open spec fn distinct_names(ns: Seq<Seq<char>>) -> bool {
    forall|i: int, j: int| 0 <= i < j < ns.len() ==> ns[i] != ns[j]
}

proof fn lemma_dedup_firsts_distinct(xs: Seq<Seq<char>>)
    ensures
        distinct_names(dedup_firsts(xs)),
        forall|n: Seq<char>| dedup_firsts(xs).contains(n) <==> xs.contains(n),
    decreases xs.len(),
{
    if xs.len() == 0 {
    } else {
        lemma_dedup_firsts_distinct(xs.drop_last());
        let prior = dedup_firsts(xs.drop_last());
        assert forall|n: Seq<char>| dedup_firsts(xs).contains(n) implies xs.contains(n) by {
            if prior.contains(n) {
                assert(xs.drop_last().contains(n));
                let k = choose|k: int| 0 <= k < xs.drop_last().len() && xs.drop_last()[k] == n;
                assert(xs[k] == n);
            } else {
                assert(n == xs.last());
                assert(xs[xs.len() - 1] == n);
            }
        }
        assert forall|n: Seq<char>| xs.contains(n) implies dedup_firsts(xs).contains(n) by {
            let k = choose|k: int| 0 <= k < xs.len() && xs[k] == n;
            if k < xs.len() - 1 {
                assert(xs.drop_last()[k] == n);
                assert(xs.drop_last().contains(n));
                assert(prior.contains(n));
                if !prior.contains(xs.last()) {
                    let m = choose|m: int| 0 <= m < prior.len() && prior[m] == n;
                    assert(dedup_firsts(xs)[m] == n);
                }
            } else {
                if prior.contains(xs.last()) {
                    let m = choose|m: int| 0 <= m < prior.len() && prior[m] == n;
                    assert(dedup_firsts(xs)[m] == n);
                } else {
                    assert(dedup_firsts(xs).last() == n);
                }
            }
        }
        if !prior.contains(xs.last()) {
            assert forall|i: int, j: int|
                0 <= i < j < dedup_firsts(xs).len() implies dedup_firsts(xs)[i] != dedup_firsts(
                xs,
            )[j] by {
                if j < dedup_firsts(xs).len() - 1 {
                    assert(dedup_firsts(xs)[i] == prior[i]);
                    assert(dedup_firsts(xs)[j] == prior[j]);
                } else {
                    assert(dedup_firsts(xs)[i] == prior[i]);
                    assert(prior.contains(prior[i]));
                }
            }
        }
    }
}

/// Law: variable allocation is a bijection. When no user variable collides
/// with a reserved name, the allocation list holds every referenced name
/// and every reserved name exactly once, so the cell indices - the
/// positions in this list - are distinct, dense and start at zero, one per
/// name.
pub proof fn lemma_allocation_bijection(ss: Seq<StmtV>)
    requires
        !reserved_collision(list_vars_spec(ss)),
    ensures
        distinct_names(allocation(ss)),
        forall|n: Seq<char>|
            #[trigger] allocation(ss).contains(n) <==> (vars_of_stmts(ss).contains(n)
                || reserved_names().contains(n)),
{
    lemma_dedup_firsts_distinct(vars_of_stmts(ss));
    let user = list_vars_spec(ss);
    let all = allocation(ss);
    assert(reserved_names()[0] == temp_name());
    assert(reserved_names()[1] == if_flag_name());
    assert(reserved_names()[2] == else_flag_name());
    assert(reserved_names()[3] == is_eq_name());
    assert(reserved_names()[4] == while_flag_name());
    assert forall|i: int, j: int| 0 <= i < j < all.len() implies all[i] != all[j] by {
        if j < user.len() {
            assert(all[i] == user[i] && all[j] == user[j]);
        } else if i >= user.len() {
            assert(all[i] == reserved_names()[i - user.len()]);
            assert(all[j] == reserved_names()[j - user.len()]);
            assert(reserved_names()[i - user.len()] != reserved_names()[j - user.len()]);
        } else {
            assert(all[i] == user[i]);
            assert(all[j] == reserved_names()[j - user.len()]);
            assert(user.contains(user[i]));
            if user[i] == reserved_names()[j - user.len()] {
                assert(reserved_collision(user));
            }
        }
    }
    assert forall|n: Seq<char>| #[trigger] all.contains(n) implies (vars_of_stmts(ss).contains(n)
        || reserved_names().contains(n)) by {
        let k = choose|k: int| 0 <= k < all.len() && all[k] == n;
        if k < user.len() {
            assert(user[k] == n);
            assert(user.contains(n));
        } else {
            assert(reserved_names()[k - user.len()] == n);
            assert(reserved_names().contains(n));
        }
    }
    assert forall|n: Seq<char>| (vars_of_stmts(ss).contains(n) || reserved_names().contains(
        n,
    )) implies #[trigger] all.contains(n) by {
        if vars_of_stmts(ss).contains(n) {
            assert(user.contains(n));
            let k = choose|k: int| 0 <= k < user.len() && user[k] == n;
            assert(all[k] == n);
        } else {
            let k = choose|k: int| 0 <= k < reserved_names().len() && reserved_names()[k] == n;
            assert(all[user.len() + k] == n);
        }
    }
}


} // verus!
