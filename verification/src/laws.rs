use vstd::prelude::*;
use vstd::arithmetic::div_mod::{
    lemma_div_denominator, lemma_fundamental_div_mod, lemma_mod_division_less_than_divisor,
    lemma_mod_multiples_vanish,
};
use crate::isa::{decode, first_pressed_from, step, view_wf, wrap16, CpuView, Instr};

verus! {

/// Wrapping an already-wrapped counter once more is one wrap of the
/// whole sum: lets a double program-counter advance read as `pc + 4`.
proof fn lemma_wrap16_chain(a: int, b: int)
    ensures
        wrap16(wrap16(a) + b) == wrap16(a + b),
{
    let m = 0x10000int;
    let q = a / m;
    lemma_fundamental_div_mod(a, m);
    lemma_mod_division_less_than_divisor(a, m);
    lemma_mod_division_less_than_divisor(a + b, m);
    assert(m * (-q) == -(m * q)) by (nonlinear_arith);
    lemma_mod_multiples_vanish(-q, a + b, m);
    assert(m * (-q) + (a + b) == a % m + b);
}

/// For every register and immediate, add-immediate wraps modulo 256:
/// the destination gets the low byte of the sum and nothing else
/// changes, in particular no flag is set.
pub proof fn lemma_add_imm_wraps(pre: CpuView, op: u16, rnd: u8, x: u8, kk: u8)
    requires
        view_wf(pre),
        decode(op) == (Instr::AddImm { x, kk }),
    ensures
        step(pre, op, rnd) is Ok,
        step(pre, op, rnd)->Ok_0 == (CpuView {
            v: pre.v.update(x as int, ((pre.v[x as int] + kk) % 256) as u8),
            pc: wrap16(pre.pc + 2),
            ..pre
        }),
{
    assert(step(pre, op, rnd)->Ok_0 =~= (CpuView {
        v: pre.v.update(x as int, ((pre.v[x as int] + kk) % 256) as u8),
        pc: wrap16(pre.pc + 2),
        ..pre
    }));
}

/// A jump sets the program counter to exactly the 12-bit address in
/// the instruction, with no implicit increment afterward, and leaves
/// everything else alone.
pub proof fn lemma_jump_exact(pre: CpuView, op: u16, rnd: u8, nnn: u16)
    requires
        view_wf(pre),
        decode(op) == (Instr::Jp { nnn }),
    ensures
        step(pre, op, rnd) is Ok,
        step(pre, op, rnd)->Ok_0 == (CpuView { pc: nnn, ..pre }),
{
    assert(step(pre, op, rnd)->Ok_0 =~= (CpuView { pc: nnn, ..pre }));
}

/// Calling an address and immediately returning restores the program
/// counter to the instruction following the call and the stack
/// pointer to its pre-call value.
pub proof fn lemma_call_return_round_trip(
    pre: CpuView,
    op_call: u16,
    op_ret: u16,
    rnd1: u8,
    rnd2: u8,
    nnn: u16,
)
    requires
        view_wf(pre),
        decode(op_call) == (Instr::Call { nnn }),
        decode(op_ret) == Instr::Ret,
        pre.sp < 16,
    ensures
        step(pre, op_call, rnd1) is Ok,
        step(step(pre, op_call, rnd1)->Ok_0, op_ret, rnd2) is Ok,
        step(step(pre, op_call, rnd1)->Ok_0, op_ret, rnd2)->Ok_0.pc == wrap16(pre.pc + 2),
        step(step(pre, op_call, rnd1)->Ok_0, op_ret, rnd2)->Ok_0.sp == pre.sp,
{
}

/// Skip-if-equal against an immediate: the program counter advances
/// by 4 from its pre-instruction value when the register equals the
/// immediate, and by 2 when it does not.
pub proof fn lemma_skip_if_equal(pre: CpuView, op: u16, rnd: u8, x: u8, kk: u8)
    requires
        view_wf(pre),
        decode(op) == (Instr::SeImm { x, kk }),
    ensures
        step(pre, op, rnd) is Ok,
        pre.v[x as int] == kk ==> step(pre, op, rnd)->Ok_0.pc == wrap16(pre.pc + 4),
        pre.v[x as int] != kk ==> step(pre, op, rnd)->Ok_0.pc == wrap16(pre.pc + 2),
{
    lemma_wrap16_chain(pre.pc + 2, 2);
}

/// Add-with-carry: the destination register gets the wrapped 8-bit
/// sum and the flag register reports exactly whether the unclamped
/// sum exceeded 255. Stated for destinations other than the flag
/// register itself, which the wrapped sum would overwrite.
pub proof fn lemma_add_with_carry(pre: CpuView, op: u16, rnd: u8, x: u8, y: u8)
    requires
        view_wf(pre),
        decode(op) == (Instr::AddReg { x, y }),
        x != 15,
    ensures
        step(pre, op, rnd) is Ok,
        step(pre, op, rnd)->Ok_0.v[x as int] == (pre.v[x as int] + pre.v[y as int]) % 256,
        step(pre, op, rnd)->Ok_0.v[15] == (if pre.v[x as int] + pre.v[y as int] > 255 {
            1u8
        } else {
            0u8
        }),
{
    assert(((op >> 8) & 0xF) < 16) by (bit_vector);
    let sum = pre.v[x as int] + pre.v[y as int];
    lemma_mod_division_less_than_divisor(sum, 256);
}

/// Storing registers 0..=x to memory at the index register and then
/// loading registers 0..=x back from the same address reproduces all
/// the registers, and the store touches no memory byte outside the
/// stored span.
pub proof fn lemma_store_load_round_trip(
    pre: CpuView,
    op_store: u16,
    op_load: u16,
    rnd1: u8,
    rnd2: u8,
    x: u8,
)
    requires
        view_wf(pre),
        decode(op_store) == (Instr::StoreRegs { x }),
        decode(op_load) == (Instr::LoadRegs { x }),
        pre.i + x + 1 <= 4096,
    ensures
        step(pre, op_store, rnd1) is Ok,
        step(step(pre, op_store, rnd1)->Ok_0, op_load, rnd2) is Ok,
        step(step(pre, op_store, rnd1)->Ok_0, op_load, rnd2)->Ok_0.v == pre.v,
        forall|a: int|
            0 <= a < 4096 && !(pre.i <= a < pre.i + x + 1)
                ==> step(pre, op_store, rnd1)->Ok_0.memory[a] == pre.memory[a],
{
    assert(((op_load >> 8) & 0xF) < 16) by (bit_vector);
    let s1 = step(pre, op_store, rnd1)->Ok_0;
    let s2 = step(s1, op_load, rnd2)->Ok_0;
    assert(s2.v =~= pre.v);
}

/// The BCD instruction writes the decimal digits of the register —
/// hundreds, tens, ones — to memory at the index register; each is a
/// single digit and together they recombine to the register value.
pub proof fn lemma_bcd_digits(pre: CpuView, op: u16, rnd: u8, x: u8)
    requires
        view_wf(pre),
        decode(op) == (Instr::Bcd { x }),
        pre.i + 3 <= 4096,
    ensures
        step(pre, op, rnd) is Ok,
        step(pre, op, rnd)->Ok_0.memory[pre.i as int] == pre.v[x as int] / 100,
        step(pre, op, rnd)->Ok_0.memory[pre.i + 1] == (pre.v[x as int] / 10) % 10,
        step(pre, op, rnd)->Ok_0.memory[pre.i + 2] == pre.v[x as int] % 10,
        pre.v[x as int] / 100 < 10,
        (pre.v[x as int] / 10) % 10 < 10,
        pre.v[x as int] % 10 < 10,
        100 * (pre.v[x as int] / 100) + 10 * ((pre.v[x as int] / 10) % 10) + pre.v[x as int] % 10
            == pre.v[x as int],
{
    let vx = pre.v[x as int] as int;
    lemma_fundamental_div_mod(vx, 10);
    lemma_fundamental_div_mod(vx / 10, 10);
    lemma_div_denominator(vx, 10, 10);
    lemma_mod_division_less_than_divisor(vx, 10);
    lemma_mod_division_less_than_divisor(vx / 10, 10);
}

/// Every key symbol before the first pressed one is released, the
/// found symbol itself is pressed when it is below 16, and 16 means
/// that no key at all is pressed.
proof fn lemma_first_pressed_bounds(keys: Seq<bool>, k: int)
    requires
        0 <= k <= 16,
    ensures
        k <= first_pressed_from(keys, k) <= 16,
        first_pressed_from(keys, k) < 16 ==> keys[first_pressed_from(keys, k)],
        forall|j: int| k <= j < first_pressed_from(keys, k) ==> !keys[j],
        first_pressed_from(keys, k) == 16 ==> (forall|j: int| k <= j < 16 ==> !keys[j]),
    decreases 16 - k,
{
    if k < 16 {
        lemma_first_pressed_bounds(keys, k + 1);
    }
}

/// The key-wait instruction re-executes while no key is pressed: the
/// program counter is wound back over the advance, so the whole
/// machine is unchanged across the cycle. Once some key is pressed it
/// advances normally, exactly once, loading the lowest pressed
/// symbol into the target register.
pub proof fn lemma_wait_key(pre: CpuView, op: u16, rnd: u8, x: u8)
    requires
        view_wf(pre),
        decode(op) == (Instr::WaitKey { x }),
    ensures
        step(pre, op, rnd) is Ok,
        (forall|k: int| 0 <= k < 16 ==> !pre.keys[k]) ==> step(pre, op, rnd)->Ok_0 == pre,
        (exists|k: int| 0 <= k < 16 && pre.keys[k]) ==> ({
            let sym = first_pressed_from(pre.keys, 0);
            &&& 0 <= sym < 16
            &&& pre.keys[sym]
            &&& forall|j: int| 0 <= j < sym ==> !pre.keys[j]
            &&& step(pre, op, rnd)->Ok_0 == (CpuView {
                v: pre.v.update(x as int, sym as u8),
                pc: wrap16(pre.pc + 2),
                ..pre
            })
        }),
{
    lemma_first_pressed_bounds(pre.keys, 0);
    let sym = first_pressed_from(pre.keys, 0);
    if forall|k: int| 0 <= k < 16 ==> !pre.keys[k] {
        assert(sym == 16);
        assert(step(pre, op, rnd)->Ok_0 =~= pre);
    }
    if exists|k: int| 0 <= k < 16 && pre.keys[k] {
        let w = choose|k: int| 0 <= k < 16 && pre.keys[k];
        assert(sym < 16);
        assert(step(pre, op, rnd)->Ok_0 =~= (CpuView {
            v: pre.v.update(x as int, sym as u8),
            pc: wrap16(pre.pc + 2),
            ..pre
        }));
    }
}

} // verus!
