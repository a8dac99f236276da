//! Dictionary/run-length decompressor.
//!
//! Every resource stored in the container is packed with this scheme.  The
//! stream starts with a record counter and an escape byte, followed by
//! `counter` three-byte records that incrementally configure a 256-slot
//! substitution table (a binary decode tree).  The remaining bytes are tokens:
//! each token either descends through the tree (with an explicit stack of
//! postponed siblings) or, when it equals the escape byte, passes the next
//! byte straight through.  Resolved values feed a five-state control automaton
//! that assembles the output from literal-copy and fill runs.
//!
//! The whole decoder is modelled as a small-step machine (`step`), so the
//! specification [`unpack_spec`] is a total function of the input bytes and
//! the executable decoder is proved to return exactly its value.

use vstd::prelude::*;

use crate::errors::ErrorKind;

verus! {

/// One slot of the 256-entry substitution table.
///
/// `left`/`right` are the two candidate byte values a configured slot holds;
/// each flag records whether, at configuration time, the candidate's own slot
/// was already configured as a branch (flag 2) or not (flag 1).  Flag 0 marks
/// a slot never configured by any record: descending into it resolves the
/// slot's identity value.
#[derive(Clone, Copy)]
pub struct Slot {
    pub left: u8,
    pub left_flag: u8,
    pub right: u8,
    pub right_flag: u8,
}

/// The initial table: slot `i` holds its own index and flag 0.
pub open spec fn init_table() -> Seq<Slot> {
    Seq::new(256, |i: int| Slot { left: i as u8, left_flag: 0, right: 0, right_flag: 0 })
}

/// Apply one tree-build record `(idx, l, r)` to the table.  Both leaf/branch
/// flags are decided by inspecting the candidates' own slots in the table as
/// it stood before this record.
pub open spec fn table_record(t: Seq<Slot>, idx: u8, l: u8, r: u8) -> Seq<Slot> {
    t.update(
        idx as int,
        Slot {
            left: l,
            left_flag: if t[l as int].left_flag != 0 { 2 } else { 1 },
            right: r,
            right_flag: if t[r as int].left_flag != 0 { 2 } else { 1 },
        },
    )
}

/// Apply `count` records read from `d` starting at `pos`; `None` when the
/// stream is too short to hold them.  Returns the table and the position of
/// the first token.
pub open spec fn build_table(d: Seq<u8>, t: Seq<Slot>, pos: int, count: int) -> Option<
    (Seq<Slot>, int),
>
    decreases count,
{
    if count <= 0 {
        Some((t, pos))
    } else if pos + 3 <= d.len() {
        build_table(d, table_record(t, d[pos], d[pos + 1], d[pos + 2]), pos + 3, count - 1)
    } else {
        None
    }
}

/// State of the output automaton.
///
/// `Select` decides the next operation from a resolved value; `Copy` appends
/// literal bytes until the pending count runs out; `MergeCopy` / `MergeFill`
/// fold one more byte into the pending run length before re-entering `Copy` /
/// `Fill`; `Fill` appends one value `pending` times; `Stop` ends the stream.
#[derive(Clone, Copy, Debug, PartialEq, Eq, Structural)]
pub enum OutState {
    Select,
    Copy,
    MergeCopy,
    Fill,
    MergeFill,
    Stop,
}

/// Feed one resolved byte `al` to the automaton: next state, next pending
/// run length, and the output so far.
pub open spec fn emit(st: OutState, pending: u16, out: Seq<u8>, al: u8) -> (OutState, u16, Seq<
    u8,
>) {
    match st {
        OutState::Select => {
            if al == 0 {
                (OutState::Stop, pending, out)
            } else if al < 0x40 {
                (OutState::Copy, al as u16, out)
            } else if al < 0x80 {
                (OutState::MergeCopy, (((al & 0x3f) as u16) << 8) | (pending & 0xff), out)
            } else if al < 0xc0 {
                (OutState::Fill, (al & 0x3f) as u16, out)
            } else {
                (OutState::MergeFill, ((pending & 0xff) << 8) | ((al & 0x3f) as u16), out)
            }
        },
        OutState::Copy => {
            let p = if pending == 0 {
                0xffffu16
            } else {
                (pending - 1) as u16
            };
            (
                if p == 0 {
                    OutState::Select
                } else {
                    OutState::Copy
                },
                p,
                out.push(al),
            )
        },
        OutState::MergeCopy => (OutState::Copy, (pending & 0xff00) | (al as u16), out),
        OutState::Fill => (OutState::Select, pending, out + Seq::new(pending as nat, |i: int| al)),
        OutState::MergeFill => (OutState::Fill, ((pending & 0xff) << 8) | (al as u16), out),
        OutState::Stop => (OutState::Stop, pending, out),
    }
}

/// Where the token interpreter stands.
///
/// `Fetch`: about to read a fresh token.  `Descend(s)`: resolving symbol `s`
/// through the table.  `Unstack(flag, value)`: working through a pending
/// `(flag, value)` pair, popping postponed siblings.  `Halt`: the stream
/// ended normally.  `Abort`: the stream ran out mid-record.
#[derive(Clone, Copy)]
pub enum Phase {
    Fetch,
    Descend(u8),
    Unstack(u8, u8),
    Halt,
    Abort,
}

/// Full state of the token interpreter.
pub struct Machine {
    pub pos: int,
    pub st: OutState,
    pub pending: u16,
    pub stack: Seq<(u8, u8)>,
    pub out: Seq<u8>,
    pub ph: Phase,
}

/// The machine that starts interpreting tokens at `pos`.
pub open spec fn start_machine(pos: int) -> Machine {
    Machine {
        pos,
        st: OutState::Select,
        pending: 0,
        stack: Seq::empty(),
        out: Seq::empty(),
        ph: Phase::Fetch,
    }
}

/// One small step of the token interpreter.  `Halt` and `Abort` are
/// fixpoints.
pub open spec fn step(d: Seq<u8>, t: Seq<Slot>, esc: u8, m: Machine) -> Machine {
    match m.ph {
        Phase::Halt => m,
        Phase::Abort => m,
        Phase::Fetch => {
            if m.pos >= d.len() {
                Machine { ph: Phase::Halt, ..m }
            } else {
                let al = d[m.pos];
                if al == esc {
                    if m.pos + 1 >= d.len() {
                        Machine { ph: Phase::Abort, ..m }
                    } else {
                        let (st, p, out) = emit(m.st, m.pending, m.out, d[m.pos + 1]);
                        Machine {
                            pos: m.pos + 2,
                            st,
                            pending: p,
                            out,
                            ph: if st is Stop {
                                Phase::Halt
                            } else {
                                Phase::Fetch
                            },
                            ..m
                        }
                    }
                } else {
                    Machine { pos: m.pos + 1, ph: Phase::Descend(al), ..m }
                }
            }
        },
        Phase::Descend(al) => {
            let s = t[al as int];
            if s.left_flag == 0 {
                let (st, p, out) = emit(m.st, m.pending, m.out, s.left);
                Machine {
                    st,
                    pending: p,
                    out,
                    ph: if st is Stop {
                        Phase::Halt
                    } else {
                        Phase::Fetch
                    },
                    ..m
                }
            } else {
                Machine {
                    stack: m.stack.push((s.right_flag, s.right)),
                    ph: Phase::Unstack(s.left_flag, s.left),
                    ..m
                }
            }
        },
        Phase::Unstack(ah, al) => {
            if ah == 1 {
                let (st, p, out) = emit(m.st, m.pending, m.out, al);
                if st is Stop {
                    Machine { st, pending: p, out, ph: Phase::Halt, ..m }
                } else if m.stack.len() == 0 {
                    Machine { st, pending: p, out, ph: Phase::Fetch, ..m }
                } else {
                    let (h, l) = m.stack.last();
                    Machine {
                        st,
                        pending: p,
                        out,
                        stack: m.stack.drop_last(),
                        ph: Phase::Unstack(h, l),
                        ..m
                    }
                }
            } else {
                Machine { ph: Phase::Descend(al), ..m }
            }
        },
    }
}

/// `n` steps of the interpreter.
pub open spec fn run(d: Seq<u8>, t: Seq<Slot>, esc: u8, m: Machine, n: nat) -> Machine
    decreases n,
{
    if n == 0 {
        m
    } else {
        run(d, t, esc, step(d, t, esc, m), (n - 1) as nat)
    }
}

/// A machine that halted or aborted stays put.
pub proof fn lemma_halted_run(d: Seq<u8>, t: Seq<Slot>, esc: u8, m: Machine, n: nat)
    requires
        m.ph is Halt || m.ph is Abort,
    ensures
        run(d, t, esc, m, n) == m,
    decreases n,
{
    if n > 0 {
        lemma_halted_run(d, t, esc, m, (n - 1) as nat);
    }
}

/// Running in two legs is running once.
pub proof fn lemma_run_compose(d: Seq<u8>, t: Seq<Slot>, esc: u8, m: Machine, a: nat, b: nat)
    ensures
        run(d, t, esc, m, a + b) == run(d, t, esc, run(d, t, esc, m, a), b),
    decreases a,
{
    if a > 0 {
        lemma_run_compose(d, t, esc, step(d, t, esc, m), (a - 1) as nat, b);
    }
}

/// Once the machine halts or aborts, granting more steps changes nothing:
/// the step budget below only matters for streams that never halt.
pub proof fn lemma_halt_stable(d: Seq<u8>, t: Seq<Slot>, esc: u8, m: Machine, n1: nat, n2: nat)
    requires
        n1 <= n2,
        run(d, t, esc, m, n1).ph is Halt || run(d, t, esc, m, n1).ph is Abort,
    ensures
        run(d, t, esc, m, n2) == run(d, t, esc, m, n1),
{
    lemma_run_compose(d, t, esc, m, n1, (n2 - n1) as nat);
    lemma_halted_run(d, t, esc, run(d, t, esc, m, n1), (n2 - n1) as nat);
}

/// Step budget granted to an input of length `len`.  A well-formed stream
/// spends far fewer steps per input byte; a stream whose substitution table
/// cycles would otherwise descend forever.  By [`lemma_halt_stable`], any
/// stream whose machine halts within the budget decodes to exactly the
/// machine's output, whatever the budget.
pub open spec fn fuel_for(len: int) -> nat {
    ((len + 1) * 65536) as nat
}

/// The value `unpack` returns: `None` is a decode failure (empty stream, a
/// zero record counter, a table or token read past the end of the stream, or
/// a descent that exhausts the step budget); `Some(out)` is the decompressed
/// byte sequence.
pub open spec fn unpack_spec(d: Seq<u8>) -> Option<Seq<u8>> {
    if d.len() < 2 || d[0] == 0 {
        None
    } else {
        match build_table(d, init_table(), 2, d[0] as int) {
            None => None,
            Some((t, pos)) => {
                let m = run(d, t, d[1], start_machine(pos), fuel_for(d.len() as int));
                if m.ph is Halt {
                    Some(m.out)
                } else {
                    None
                }
            },
        }
    }
}

/// Feed one resolved byte to the automaton, appending any output to `out`.
fn emit_step(st: OutState, pending: u16, out: &mut Vec<u8>, al: u8) -> (r: (OutState, u16))
    ensures
        ({
            let (nst, np, nout) = emit(st, pending, old(out)@, al);
            r.0 == nst && r.1 == np && final(out)@ == nout
        }),
{
    match st {
        OutState::Select => {
            if al == 0 {
                (OutState::Stop, pending)
            } else if al < 0x40 {
                (OutState::Copy, al as u16)
            } else if al < 0x80 {
                (OutState::MergeCopy, (((al & 0x3f) as u16) << 8) | (pending & 0xff))
            } else if al < 0xc0 {
                (OutState::Fill, (al & 0x3f) as u16)
            } else {
                (OutState::MergeFill, ((pending & 0xff) << 8) | ((al & 0x3f) as u16))
            }
        },
        OutState::Copy => {
            out.push(al);
            let p = if pending == 0 {
                0xffffu16
            } else {
                pending - 1
            };
            (
                if p == 0 {
                    OutState::Select
                } else {
                    OutState::Copy
                },
                p,
            )
        },
        OutState::MergeCopy => (OutState::Copy, (pending & 0xff00) | (al as u16)),
        OutState::Fill => {
            let mut k: u16 = 0;
            while k < pending
                invariant
                    k <= pending,
                    out@.len() == old(out)@.len() + k,
                    out@ =~= old(out)@ + Seq::new(k as nat, |i: int| al),
                decreases pending - k,
            {
                out.push(al);
                k = k + 1;
                proof {
                    assert(out@ =~= old(out)@ + Seq::new(k as nat, |i: int| al));
                }
            }
            proof {
                assert(out@ =~= old(out)@ + Seq::new(pending as nat, |i: int| al));
            }
            (OutState::Select, pending)
        },
        OutState::MergeFill => (OutState::Fill, ((pending & 0xff) << 8) | (al as u16)),
        OutState::Stop => (OutState::Stop, pending),
    }
}

/// Decompress one resource stream.
///
/// Returns exactly the bytes the small-step model produces; every failure
/// mode of the model (and no other input) yields `DecodeError`.
pub fn unpack(data: &[u8]) -> (r: Result<Vec<u8>, ErrorKind>)
    ensures
        match r {
            Ok(v) => unpack_spec(data@) == Some(v@),
            Err(e) => unpack_spec(data@) is None && e == ErrorKind::DecodeError,
        },
{
    if data.len() < 2 {
        return Err(ErrorKind::DecodeError);
    }
    let counter = data[0];
    if counter == 0 {
        return Err(ErrorKind::DecodeError);
    }
    let esc = data[1];

    // Build the 256-slot substitution table.
    let mut table: Vec<Slot> = Vec::new();
    let mut i: usize = 0;
    while i < 256
        invariant
            i <= 256,
            table@.len() == i,
            forall|j: int| 0 <= j < i ==> table@[j] == init_table()[j],
        decreases 256 - i,
    {
        table.push(Slot { left: i as u8, left_flag: 0, right: 0, right_flag: 0 });
        i = i + 1;
    }
    proof {
        assert(table@ =~= init_table());
    }

    let mut pos: usize = 2;
    let mut remaining: u8 = counter;
    while remaining > 0
        invariant
            table@.len() == 256,
            2 <= pos <= data@.len(),
            data@.len() >= 2,
            counter == data@[0],
            counter != 0,
            build_table(data@, init_table(), 2, counter as int) == build_table(
                data@,
                table@,
                pos as int,
                remaining as int,
            ),
        decreases remaining,
    {
        if data.len() - pos < 3 {
            return Err(ErrorKind::DecodeError);
        }
        let idx = data[pos];
        let l = data[pos + 1];
        let r = data[pos + 2];
        let lf = table[l as usize].left_flag;
        let rf = table[r as usize].left_flag;
        let ghost before = table@;
        table[idx as usize] = Slot {
            left: l,
            left_flag: if lf != 0 {
                2
            } else {
                1
            },
            right: r,
            right_flag: if rf != 0 {
                2
            } else {
                1
            },
        };
        proof {
            assert(table@ =~= table_record(before, idx, l, r));
        }
        pos = pos + 3;
        remaining = remaining - 1;
    }

    let ghost tbl: Seq<Slot> = table@;
    let ghost m_start = start_machine(pos as int);
    let ghost total_fuel = fuel_for(data@.len() as int);
    let ghost m_final = run(data@, tbl, esc, m_start, total_fuel);
    let mut fuel: u128 = (data.len() as u128 + 1) * 65536;
    proof {
        assert(fuel as nat == total_fuel);
        assert(unpack_spec(data@) == (if m_final.ph is Halt {
            Some(m_final.out)
        } else {
            None::<Seq<u8>>
        }));
    }

    let mut st = OutState::Select;
    let mut pending: u16 = 0;
    let mut stack: Vec<(u8, u8)> = Vec::new();
    let mut out: Vec<u8> = Vec::new();
    let mut ph = Phase::Fetch;
    let mut ip: usize = pos;

    proof {
        assert(stack@ =~= Seq::<(u8, u8)>::empty());
        assert(out@ =~= Seq::<u8>::empty());
        assert(Machine { pos: ip as int, st, pending, stack: stack@, out: out@, ph } == m_start);
    }

    loop
        invariant
            table@ == tbl,
            tbl.len() == 256,
            ip <= data@.len(),
            unpack_spec(data@) == (if m_final.ph is Halt {
                Some(m_final.out)
            } else {
                None::<Seq<u8>>
            }),
            run(
                data@,
                tbl,
                esc,
                Machine { pos: ip as int, st, pending, stack: stack@, out: out@, ph },
                fuel as nat,
            ) == m_final,
        decreases fuel,
    {
        let ghost m_cur = Machine { pos: ip as int, st, pending, stack: stack@, out: out@, ph };
        match ph {
            Phase::Halt => {
                proof {
                    lemma_halted_run(data@, tbl, esc, m_cur, fuel as nat);
                }
                return Ok(out);
            },
            Phase::Abort => {
                proof {
                    lemma_halted_run(data@, tbl, esc, m_cur, fuel as nat);
                }
                return Err(ErrorKind::DecodeError);
            },
            _ => {},
        }
        if fuel == 0 {
            return Err(ErrorKind::DecodeError);
        }
        match ph {
            Phase::Fetch => {
                if ip >= data.len() {
                    ph = Phase::Halt;
                } else {
                    let al = data[ip];
                    if al == esc {
                        if ip + 1 >= data.len() {
                            ph = Phase::Abort;
                        } else {
                            let b = data[ip + 1];
                            let (nst, np) = emit_step(st, pending, &mut out, b);
                            st = nst;
                            pending = np;
                            ip = ip + 2;
                            ph = if st == OutState::Stop {
                                Phase::Halt
                            } else {
                                Phase::Fetch
                            };
                        }
                    } else {
                        ip = ip + 1;
                        ph = Phase::Descend(al);
                    }
                }
            },
            Phase::Descend(al) => {
                let s = table[al as usize];
                if s.left_flag == 0 {
                    let (nst, np) = emit_step(st, pending, &mut out, s.left);
                    st = nst;
                    pending = np;
                    ph = if st == OutState::Stop {
                        Phase::Halt
                    } else {
                        Phase::Fetch
                    };
                } else {
                    stack.push((s.right_flag, s.right));
                    ph = Phase::Unstack(s.left_flag, s.left);
                }
            },
            Phase::Unstack(ah, al) => {
                if ah == 1 {
                    let (nst, np) = emit_step(st, pending, &mut out, al);
                    st = nst;
                    pending = np;
                    if st == OutState::Stop {
                        ph = Phase::Halt;
                    } else if stack.len() == 0 {
                        ph = Phase::Fetch;
                    } else {
                        let top = stack.pop().unwrap();
                        ph = Phase::Unstack(top.0, top.1);
                    }
                } else {
                    ph = Phase::Descend(al);
                }
            },
            _ => {
                // not reached: the halted phases returned above
                return Err(ErrorKind::DecodeError);
            },
        }
        proof {
            let m_next = Machine { pos: ip as int, st, pending, stack: stack@, out: out@, ph };
            assert(m_next == step(data@, tbl, esc, m_cur));
        }
        fuel = fuel - 1;
    }
}

} // verus!
