use vstd::prelude::*;

use crate::board::Board;
use crate::piece::PieceKind;
use crate::text::str_equal;

verus! {

/// Which pieces can score spins.
#[derive(Clone, Copy, Debug, PartialEq, Eq, Structural)]
pub enum SpinMode {
    TOnly,
    AllSpin,
}

impl SpinMode {
    /// The mode's name: "t_only" or "all_spin".
    pub fn as_str(self) -> (r: &'static str)
        ensures
            r@ == (match self {
                SpinMode::TOnly => "t_only"@,
                SpinMode::AllSpin => "all_spin"@,
            }),
    {
        match self {
            SpinMode::TOnly => "t_only",
            SpinMode::AllSpin => "all_spin",
        }
    }
}

impl Default for SpinMode {
    fn default() -> (r: Self)
        ensures
            r == SpinMode::AllSpin,
    {
        SpinMode::AllSpin
    }
}

/// How back-to-back streaks pay out.
#[derive(Clone, Copy, Debug, PartialEq, Eq, Structural)]
pub enum B2BMode {
    Surge,
    Chaining,
}

impl B2BMode {
    /// The mode's name: "surge" or "chaining".
    pub fn as_str(self) -> (r: &'static str)
        ensures
            r@ == (match self {
                B2BMode::Surge => "surge"@,
                B2BMode::Chaining => "chaining"@,
            }),
    {
        match self {
            B2BMode::Surge => "surge",
            B2BMode::Chaining => "chaining",
        }
    }
}

impl Default for B2BMode {
    fn default() -> (r: Self)
        ensures
            r == B2BMode::Surge,
    {
        B2BMode::Surge
    }
}

/// A recognised spin.
#[derive(Clone, Debug, PartialEq, Eq)]
pub struct SpinResult {
    pub piece: PieceKind,
    pub spin_type: &'static str,
    pub is_mini: bool,
    pub is_180: bool,
    pub kick_index: Option<u8>,
    pub rotation_dir: Option<i8>,
    pub corners: Option<u8>,
    pub front_corners: Option<u8>,
    pub description: String,
}

/// The spin mode named `name`: "t_only" or "all_spin"; `None` for any other text.
pub fn spin_mode_from_str(name: &str) -> (r: Option<SpinMode>)
    ensures
        r == (if name@ == "t_only"@ {
            Some(SpinMode::TOnly)
        } else if name@ == "all_spin"@ {
            Some(SpinMode::AllSpin)
        } else {
            None
        }),
{
    if str_equal(name, "t_only") {
        Some(SpinMode::TOnly)
    } else if str_equal(name, "all_spin") {
        Some(SpinMode::AllSpin)
    } else {
        None
    }
}

/// The back-to-back mode named `name`: "surge" or "chaining"; `None` for any
/// other text.
pub fn b2b_mode_from_str(name: &str) -> (r: Option<B2BMode>)
    ensures
        r == (if name@ == "surge"@ {
            Some(B2BMode::Surge)
        } else if name@ == "chaining"@ {
            Some(B2BMode::Chaining)
        } else {
            None
        }),
{
    if str_equal(name, "surge") {
        Some(B2BMode::Surge)
    } else if str_equal(name, "chaining") {
        Some(B2BMode::Chaining)
    } else {
        None
    }
}

/// Everything a placement scored. The combo multiplier is carried as the bit
/// pattern of the IEEE-754 double it stands for.
#[derive(Clone, Debug, PartialEq, Eq)]
pub struct AttackStats {
    pub attack: i32,
    pub b2b_bonus: i32,
    pub b2b_chain: i32,
    pub b2b_display: i32,
    pub b2b_mode: &'static str,
    pub base_attack: i32,
    pub breaks_b2b: bool,
    pub combo: i32,
    pub combo_active: bool,
    pub combo_attack: i32,
    pub combo_bonus: i32,
    pub combo_multiplier_bits: Option<u64>,
    pub is_difficult: bool,
    pub is_mini: bool,
    pub is_spin: bool,
    pub lines_cleared: i32,
    pub perfect_clear: bool,
    pub qualifies_b2b: bool,
    pub spin: Option<SpinResult>,
    pub spin_type: i32,
    pub surge_charge: i32,
    pub surge_segments: Vec<i32>,
    pub surge_send: i32,
    pub t_spin: &'static str,
    pub garbage_cleared: i32,
    pub immediate_garbage: i32,
}

/// How a line clear counts for back-to-back purposes.
#[derive(Clone, Debug, PartialEq, Eq)]
pub struct ClearClassification {
    pub lines_cleared: i32,
    pub spin: Option<SpinResult>,
    pub is_spin: bool,
    pub spin_type: i32,
    pub is_mini: bool,
    pub is_difficult: bool,
    pub qualifies_b2b: bool,
    pub breaks_b2b: bool,
}

/// Back-to-back state after a placement.
#[derive(Clone, Copy, Debug, PartialEq, Eq, Structural)]
pub struct B2BUpdate {
    pub b2b_chain: i32,
    pub surge_charge: i32,
    pub b2b_bonus: i32,
    pub surge_send: i32,
}

/// Combo state after a placement.
#[derive(Clone, Copy, Debug, PartialEq, Eq, Structural)]
pub struct ComboUpdate {
    pub combo: i32,
    pub combo_active: bool,
}

/// A clear is difficult when it clears lines and is a perfect clear, a quad or a spin.
pub open spec fn difficult(cleared_lines: int, has_spin: bool, perfect_clear: bool) -> bool {
    cleared_lines > 0 && (perfect_clear || cleared_lines == 4 || has_spin)
}

/// The spin as it was handed in, copied out of its reference.
pub open spec fn spin_copy(spin_result: Option<&SpinResult>) -> Option<SpinResult> {
    match spin_result {
        Some(s) => Some(*s),
        None => None,
    }
}

fn copy_spin(spin: &SpinResult) -> (r: SpinResult)
    ensures
        r == *spin,
{
    SpinResult {
        piece: spin.piece,
        spin_type: spin.spin_type,
        is_mini: spin.is_mini,
        is_180: spin.is_180,
        kick_index: spin.kick_index,
        rotation_dir: spin.rotation_dir,
        corners: spin.corners,
        front_corners: spin.front_corners,
        description: spin.description.clone(),
    }
}

/// Classifies a clear: spin type 2 for a full spin, 1 for a mini, 0 for none;
/// a difficult clear with lines keeps the back-to-back streak, an easy clear
/// with lines breaks it.
pub fn classify_clear(cleared_lines: i32, spin_result: Option<&SpinResult>, perfect_clear: bool) -> (r: ClearClassification)
    ensures
        r.lines_cleared == cleared_lines,
        r.spin == spin_copy(spin_result),
        r.is_spin == spin_result is Some,
        r.spin_type == (match spin_result {
            Some(s) => if s.is_mini { 1i32 } else { 2i32 },
            None => 0i32,
        }),
        r.is_mini == (match spin_result {
            Some(s) => s.is_mini,
            None => false,
        }),
        r.is_difficult == difficult(cleared_lines as int, spin_result is Some, perfect_clear),
        r.qualifies_b2b == (r.is_difficult && cleared_lines > 0),
        r.breaks_b2b == (cleared_lines > 0 && !r.is_difficult),
        cleared_lines >= 1 && spin_result is Some ==> r.qualifies_b2b && !r.breaks_b2b,
{
    let spin = match spin_result {
        Some(s) => Some(copy_spin(s)),
        None => None,
    };
    let is_spin = spin_result.is_some();
    let spin_type: i32 = match spin_result {
        Some(s) => if s.is_mini { 1 } else { 2 },
        None => 0,
    };
    let is_mini = match spin_result {
        Some(s) => s.is_mini,
        None => false,
    };
    let is_difficult = is_difficult_clear(cleared_lines, spin_result, perfect_clear);
    ClearClassification {
        lines_cleared: cleared_lines,
        spin,
        is_spin,
        spin_type,
        is_mini,
        is_difficult,
        qualifies_b2b: is_difficult && cleared_lines > 0,
        breaks_b2b: cleared_lines > 0 && !is_difficult,
    }
}

/// The back-to-back attack bonus of a streak of `chain_len` difficult clears.
pub open spec fn b2b_bonus(chain_len: int) -> int {
    let e = if chain_len - 1 > 0 { chain_len - 1 } else { 0 };
    if e == 0 {
        0
    } else if e <= 2 {
        1
    } else if e <= 7 {
        2
    } else if e <= 23 {
        3
    } else if e <= 66 {
        4
    } else if e <= 184 {
        5
    } else if e <= 503 {
        6
    } else if e <= 1369 {
        7
    } else {
        8
    }
}

/// The bonus ladder: 0 without a streak, then +1 up to B2Bx2, +2 up to x7,
/// +3 up to x23, +4 up to x66, +5 up to x184, +6 up to x503, +7 up to x1369,
/// +8 beyond.
pub fn b2b_bonus_for_chain(chain_len: i32) -> (r: i32)
    requires
        chain_len > i32::MIN,
    ensures
        r == b2b_bonus(chain_len as int),
{
    let effective = if chain_len - 1 > 0 { chain_len - 1 } else { 0 };
    if effective == 0 {
        0
    } else if effective <= 2 {
        1
    } else if effective <= 7 {
        2
    } else if effective <= 23 {
        3
    } else if effective <= 66 {
        4
    } else if effective <= 184 {
        5
    } else if effective <= 503 {
        6
    } else if effective <= 1369 {
        7
    } else {
        8
    }
}

/// Whether a clear is difficult: it clears lines and is a perfect clear, a
/// quad, or comes with a spin.
pub fn is_difficult_clear(cleared_lines: i32, spin_result: Option<&SpinResult>, perfect_clear: bool) -> (r: bool)
    ensures
        r == difficult(cleared_lines as int, spin_result is Some, perfect_clear),
        cleared_lines >= 1 && spin_result is Some ==> r,
        cleared_lines >= 1 && perfect_clear ==> r,
        1 <= cleared_lines <= 3 && spin_result is None && !perfect_clear ==> !r,
{
    if cleared_lines <= 0 {
        return false;
    }
    if perfect_clear || cleared_lines == 4 || spin_result.is_some() {
        return true;
    }
    false
}

/// The back-to-back transition of a placement.
pub open spec fn b2b_transition(
    b2b_mode: B2BMode,
    cleared_lines: int,
    is_difficult: bool,
    b2b_chain: int,
    surge_charge: int,
) -> (int, int, int, int) {
    if cleared_lines <= 0 {
        (b2b_chain, surge_charge, 0, 0)
    } else if is_difficult {
        let next = b2b_chain + 1;
        let charge = match b2b_mode {
            B2BMode::Surge => if next - 1 >= 3 { next - 1 } else { 0 },
            B2BMode::Chaining => 0,
        };
        (next, charge, b2b_bonus(next), 0)
    } else {
        (0, 0, 0, match b2b_mode {
            B2BMode::Surge => surge_charge,
            B2BMode::Chaining => 0,
        })
    }
}

/// Updates the back-to-back state: no clear leaves it alone; a difficult clear
/// extends the streak, earns the ladder bonus and, in surge mode, holds a
/// charge equal to the displayed streak from B2Bx3 on; an easy clear ends the
/// streak and, in surge mode, releases the stored charge.
pub fn update_b2b_state(
    b2b_mode: B2BMode,
    cleared_lines: i32,
    difficult: bool,
    b2b_chain: i32,
    surge_charge: i32,
) -> (r: B2BUpdate)
    requires
        cleared_lines > 0 && difficult ==> b2b_chain < i32::MAX,
    ensures
        (r.b2b_chain as int, r.surge_charge as int, r.b2b_bonus as int, r.surge_send as int)
            == b2b_transition(b2b_mode, cleared_lines as int, difficult, b2b_chain as int, surge_charge as int),
        cleared_lines > 0 && difficult && b2b_mode is Surge ==> r.surge_charge == (if b2b_chain >= 3 { b2b_chain } else { 0 }),
{
    if cleared_lines <= 0 {
        return B2BUpdate { b2b_chain, surge_charge, b2b_bonus: 0, surge_send: 0 };
    }

    if difficult {
        let next_b2b_chain = b2b_chain + 1;
        let b2b_bonus = b2b_bonus_for_chain(next_b2b_chain);
        let next_surge_charge = match b2b_mode {
            B2BMode::Surge => {
                let b2b_display = next_b2b_chain - 1;
                if b2b_display >= 3 { b2b_display } else { 0 }
            },
            B2BMode::Chaining => 0,
        };
        return B2BUpdate {
            b2b_chain: next_b2b_chain,
            surge_charge: next_surge_charge,
            b2b_bonus,
            surge_send: 0,
        };
    }

    B2BUpdate {
        b2b_chain: 0,
        surge_charge: 0,
        b2b_bonus: 0,
        surge_send: match b2b_mode {
            B2BMode::Surge => surge_charge,
            B2BMode::Chaining => 0,
        },
    }
}

/// Released surge split into three segments, the remainder going to the first
/// and then the second; nothing for a non-positive total.
pub open spec fn surge_split(total: int) -> Seq<int> {
    if total <= 0 {
        seq![]
    } else {
        let base = total / 3;
        let rem = total % 3;
        seq![base + if rem > 0 { 1int } else { 0int }, base + if rem > 1 { 1int } else { 0int }, base]
    }
}

/// Splits released surge into three segments whose sum is the total.
pub fn surge_segments(total: i32) -> (r: Vec<i32>)
    ensures
        r@.map_values(|v: i32| v as int) == surge_split(total as int),
{
    if total <= 0 {
        let r: Vec<i32> = Vec::new();
        assert(r@.map_values(|v: i32| v as int) =~= surge_split(total as int));
        return r;
    }
    let base = total / 3;
    let rem = total % 3;
    let r = vec![
        base + if rem > 0 { 1 } else { 0 },
        base + if rem > 1 { 1 } else { 0 },
        base,
    ];
    assert(r@.map_values(|v: i32| v as int) =~= surge_split(total as int));
    r
}

/// Whether every cell of a board is empty.
pub open spec fn board_empty(board: Seq<i8>) -> bool {
    forall|i: int| 0 <= i < board.len() ==> board[i] == 0
}

/// The base attack of a clear and whether it was a perfect clear.
pub open spec fn base_attack(cleared_lines: int, t_spin: Option<bool>, board_after_clear: Seq<i8>) -> (int, bool) {
    if cleared_lines <= 0 {
        (0, false)
    } else if board_empty(board_after_clear) {
        (5, true)
    } else {
        match t_spin {
            Some(is_mini) => if is_mini {
                (if cleared_lines == 2 { 1int } else { 0int }, false)
            } else {
                (if cleared_lines == 1 {
                    2int
                } else if cleared_lines == 2 {
                    4int
                } else if cleared_lines == 3 {
                    6int
                } else {
                    0int
                }, false)
            },
            None => (if cleared_lines == 2 {
                1int
            } else if cleared_lines == 3 {
                2int
            } else if cleared_lines == 4 {
                4int
            } else {
                0int
            }, false),
        }
    }
}

/// For a T-spin, whether it is a mini; `None` for any other clear.
pub open spec fn t_spin_of(spin_result: Option<&SpinResult>) -> Option<bool> {
    match spin_result {
        Some(s) => if s.spin_type@ == "t-spin"@ { Some(s.is_mini) } else { None },
        None => None,
    }
}

/// Base attack of a clear: a perfect clear sends 5; a T-spin single, double or
/// triple 2, 4 or 6 (a mini double 1); otherwise a double 1, a triple 2 and a
/// quad 4. The flag tells whether the board is empty after a clear.
pub fn base_attack_for_clear(cleared_lines: i32, spin_result: Option<&SpinResult>, board_after_clear: &Board) -> (r: (i32, bool))
    ensures
        (r.0 as int, r.1) == base_attack(cleared_lines as int, t_spin_of(spin_result), board_after_clear@),
        cleared_lines > 0 && !board_empty(board_after_clear@) && t_spin_of(spin_result) == Some(true)
            ==> r == (if cleared_lines == 2 { 1i32 } else { 0i32 }, false),
{
    if cleared_lines <= 0 {
        return (0, false);
    }

    let mut i: usize = 0;
    while i < 400 && board_after_clear[i] == 0
        invariant
            i <= 400,
            board_after_clear@.len() == 400,
            forall|j: int| 0 <= j < i ==> board_after_clear@[j] == 0,
        decreases 400 - i,
    {
        i += 1;
    }
    if i == 400 {
        return (5, true);
    }
    assert(!board_empty(board_after_clear@));

    if let Some(spin) = spin_result {
        if str_equal(spin.spin_type, "t-spin") {
            if spin.is_mini {
                return if cleared_lines == 2 { (1, false) } else { (0, false) };
            }
            return if cleared_lines == 1 {
                (2, false)
            } else if cleared_lines == 2 {
                (4, false)
            } else if cleared_lines == 3 {
                (6, false)
            } else {
                (0, false)
            };
        }
    }

    if cleared_lines == 2 {
        (1, false)
    } else if cleared_lines == 3 {
        (2, false)
    } else if cleared_lines == 4 {
        (4, false)
    } else {
        (0, false)
    }
}

/// Combo state after a placement: no clear ends the combo; a clear during a
/// combo adds one; the first clear starts a combo at zero.
pub fn combo_after_clear(cleared_lines: i32, combo: i32, combo_active: bool) -> (r: ComboUpdate)
    requires
        cleared_lines > 0 && combo_active ==> combo < i32::MAX,
    ensures
        r.combo == (if cleared_lines <= 0 { 0 } else if combo_active { combo + 1 } else { 0 }),
        r.combo_active == (cleared_lines > 0),
{
    if cleared_lines <= 0 {
        return ComboUpdate { combo: 0, combo_active: false };
    }
    if combo_active {
        return ComboUpdate { combo: combo + 1, combo_active: true };
    }
    ComboUpdate { combo: 0, combo_active: true }
}

/// For k = 1..=21, the least combo c with 1 + 1.25c >= e^k: the combos at
/// which the natural logarithm of 1 + 1.25c first reaches k.
pub const COMBO_LOG_THRESHOLDS: [i32; 21] = [
    2, 6, 16, 43, 118, 322, 877, 2384, 6482, 17621, 47899, 130204, 353930, 962083, 2615214,
    7108888, 19323962, 52527975, 142785840, 388132156, 1055052587,
];

/// How many of the first `n` thresholds `combo` has reached.
pub open spec fn thresholds_reached(combo: int, n: int) -> int
    decreases n,
{
    if n <= 0 {
        0
    } else {
        thresholds_reached(combo, n - 1) + if COMBO_LOG_THRESHOLDS[n - 1] <= combo { 1int } else { 0int }
    }
}

/// `v` clamped to the range of `i32`.
pub open spec fn clamp_i32(v: int) -> int {
    if v < i32::MIN {
        i32::MIN as int
    } else if v > i32::MAX {
        i32::MAX as int
    } else {
        v
    }
}

/// Combo attack rounded down: base * (1 + 0.25 * combo) for a positive base;
/// otherwise floor(ln(1 + 1.25 * combo)) from combo 2 on, and 0 below.
pub open spec fn combo_attack(base_attack: int, combo: int) -> int {
    if base_attack > 0 {
        clamp_i32((base_attack * (4 + combo)) / 4)
    } else if combo >= 2 {
        thresholds_reached(combo, 21)
    } else {
        0
    }
}

/// The combo multiplier applied to a base attack and rounded down. For a
/// positive base the product is exact; for a zero base the logarithm is read
/// off the threshold table.
pub fn combo_attack_down(base_attack: i32, combo: i32) -> (r: i32)
    ensures
        r == combo_attack(base_attack as int, combo as int),
        base_attack > 0 && combo >= 0 ==> r >= base_attack,
        base_attack > 0 && combo == 0 ==> r == base_attack,
{
    proof {
        lemma_combo_attack_floor(base_attack as int, combo as int);
    }
    if base_attack > 0 {
        assert(-0x4000_0000_0000_0000 <= base_attack * (4 + combo) <= 0x4000_0001_0000_0000) by (nonlinear_arith)
            requires
                0 < base_attack <= 0x7fff_ffff,
                -0x8000_0000 <= combo <= 0x7fff_ffff,
        ;
        let n: i64 = base_attack as i64 * (4 + combo as i64);
        let q: i64 = if n >= 0 { n / 4 } else { -((-n + 3) / 4) };
        assert(q == n / 4);
        if q > i32::MAX as i64 {
            i32::MAX
        } else if q < i32::MIN as i64 {
            i32::MIN
        } else {
            q as i32
        }
    } else if combo >= 2 {
        let mut count: i32 = 0;
        let mut k: usize = 0;
        while k < 21
            invariant
                k <= 21,
                count == thresholds_reached(combo as int, k as int),
                0 <= count <= k,
            decreases 21 - k,
        {
            if COMBO_LOG_THRESHOLDS[k] <= combo {
                count += 1;
            }
            k += 1;
        }
        count
    } else {
        0
    }
}

/// Assembles the scoring record of a placement from its parts; the displayed
/// streak is one less than the chain for a qualifying clear, zero otherwise,
/// and the released surge is split into its segments.
pub fn build_attack_stats(
    b2b_mode: B2BMode,
    classification: ClearClassification,
    perfect_clear: bool,
    combo: i32,
    combo_active: bool,
    b2b_chain: i32,
    b2b_bonus: i32,
    surge_charge: i32,
    surge_send: i32,
    base_attack: i32,
    combo_attack: i32,
    combo_bonus: i32,
    combo_multiplier_bits: Option<u64>,
    attack_total: i32,
) -> (r: AttackStats)
    ensures
        r.attack == attack_total,
        r.b2b_bonus == b2b_bonus,
        r.b2b_chain == b2b_chain,
        r.b2b_display == (if classification.qualifies_b2b && b2b_chain - 1 > 0 { b2b_chain - 1 } else { 0 }),
        r.b2b_mode@ == (match b2b_mode {
            B2BMode::Surge => "surge"@,
            B2BMode::Chaining => "chaining"@,
        }),
        r.base_attack == base_attack,
        r.breaks_b2b == classification.breaks_b2b,
        r.combo == combo,
        r.combo_active == combo_active,
        r.combo_attack == combo_attack,
        r.combo_bonus == combo_bonus,
        r.combo_multiplier_bits == combo_multiplier_bits,
        r.is_difficult == classification.is_difficult,
        r.is_mini == classification.is_mini,
        r.is_spin == classification.is_spin,
        r.lines_cleared == classification.lines_cleared,
        r.perfect_clear == perfect_clear,
        r.qualifies_b2b == classification.qualifies_b2b,
        r.spin == classification.spin,
        r.spin_type == classification.spin_type,
        r.surge_charge == surge_charge,
        r.surge_segments@.map_values(|v: i32| v as int) == surge_split(surge_send as int),
        r.surge_send == surge_send,
        r.t_spin@ == "N"@,
        r.garbage_cleared == 0,
        r.immediate_garbage == 0,
{
    let b2b_display = if classification.qualifies_b2b && b2b_chain > 1 { b2b_chain - 1 } else { 0 };
    AttackStats {
        attack: attack_total,
        b2b_bonus,
        b2b_chain,
        b2b_display,
        b2b_mode: b2b_mode.as_str(),
        base_attack,
        breaks_b2b: classification.breaks_b2b,
        combo,
        combo_active,
        combo_attack,
        combo_bonus,
        combo_multiplier_bits,
        is_difficult: classification.is_difficult,
        is_mini: classification.is_mini,
        is_spin: classification.is_spin,
        lines_cleared: classification.lines_cleared,
        perfect_clear,
        qualifies_b2b: classification.qualifies_b2b,
        spin: classification.spin,
        spin_type: classification.spin_type,
        surge_charge,
        surge_segments: surge_segments(surge_send),
        surge_send,
        t_spin: "N",
        garbage_cleared: 0,
        immediate_garbage: 0,
    }
}

/// The released surge is split into three segments that add up to the
/// total, never increase from first to last, and differ by at most one.
pub proof fn lemma_surge_split_sums(total: int)
    requires
        total > 0,
    ensures
        surge_split(total).len() == 3,
        surge_split(total)[0] + surge_split(total)[1] + surge_split(total)[2] == total,
        surge_split(total)[0] >= surge_split(total)[1] >= surge_split(total)[2] >= 0,
        surge_split(total)[0] - surge_split(total)[2] <= 1,
{
}

/// The back-to-back bonus never drops as the streak grows, and stays
/// between 0 and 8.
pub proof fn lemma_b2b_bonus_monotone(a: int, b: int)
    requires
        a <= b,
    ensures
        0 <= b2b_bonus(a) <= b2b_bonus(b) <= 8,
{
}

/// In chaining mode no placement stores or releases surge.
pub proof fn lemma_chaining_never_surges(cleared_lines: int, is_difficult: bool, b2b_chain: int, surge_charge: int)
    ensures
        b2b_transition(B2BMode::Chaining, cleared_lines, is_difficult, b2b_chain, surge_charge).1 == (if cleared_lines <= 0 {
            surge_charge
        } else {
            0
        }),
        b2b_transition(B2BMode::Chaining, cleared_lines, is_difficult, b2b_chain, surge_charge).3 == 0,
{
}

/// In surge mode an easy clear releases exactly the stored charge and leaves
/// nothing stored; a difficult clear releases nothing.
pub proof fn lemma_surge_released_on_break(cleared_lines: int, is_difficult: bool, b2b_chain: int, surge_charge: int)
    requires
        cleared_lines > 0,
    ensures
        !is_difficult ==> b2b_transition(B2BMode::Surge, cleared_lines, is_difficult, b2b_chain, surge_charge).3 == surge_charge
            && b2b_transition(B2BMode::Surge, cleared_lines, is_difficult, b2b_chain, surge_charge).1 == 0
            && b2b_transition(B2BMode::Surge, cleared_lines, is_difficult, b2b_chain, surge_charge).0 == 0,
        is_difficult ==> b2b_transition(B2BMode::Surge, cleared_lines, is_difficult, b2b_chain, surge_charge).3 == 0
            && b2b_transition(B2BMode::Surge, cleared_lines, is_difficult, b2b_chain, surge_charge).0 == b2b_chain + 1,
{
}

proof fn lemma_thresholds_monotone(a: int, b: int, n: int)
    requires
        a <= b,
    ensures
        0 <= thresholds_reached(a, n) <= thresholds_reached(b, n),
    decreases n,
{
    if n > 0 {
        lemma_thresholds_monotone(a, b, n - 1);
    }
}

/// For a fixed base attack, the combo attack never drops as the combo grows.
pub proof fn lemma_combo_attack_monotone(base_attack: int, a: int, b: int)
    requires
        a <= b,
    ensures
        combo_attack(base_attack, a) <= combo_attack(base_attack, b),
{
    if base_attack > 0 {
        assert(base_attack * (4 + a) <= base_attack * (4 + b)) by (nonlinear_arith)
            requires
                base_attack > 0,
                a <= b,
        ;
        assert((base_attack * (4 + a)) / 4 <= (base_attack * (4 + b)) / 4) by (nonlinear_arith)
            requires
                base_attack * (4 + a) <= base_attack * (4 + b),
        ;
    } else {
        lemma_thresholds_monotone(a, b, 21);
    }
}

/// In surge mode a difficult clear takes the streak one further and releases
/// nothing; the charge it leaves equals the displayed streak (the new chain
/// less one, which is the old chain) once that streak is at least B2Bx3, and
/// is zero below it. A placement that clears nothing changes nothing.
pub proof fn lemma_surge_charges_from_three(cleared_lines: int, b2b_chain: int, surge_charge: int)
    ensures
        cleared_lines > 0 ==> b2b_transition(B2BMode::Surge, cleared_lines, true, b2b_chain, surge_charge).0 == b2b_chain + 1,
        cleared_lines > 0 ==> b2b_transition(B2BMode::Surge, cleared_lines, true, b2b_chain, surge_charge).3 == 0,
        cleared_lines > 0 && b2b_chain >= 3 ==> b2b_transition(B2BMode::Surge, cleared_lines, true, b2b_chain, surge_charge).1 == b2b_chain,
        cleared_lines > 0 && b2b_chain < 3 ==> b2b_transition(B2BMode::Surge, cleared_lines, true, b2b_chain, surge_charge).1 == 0,
        cleared_lines <= 0 ==> forall|m: B2BMode, d: bool| #[trigger] b2b_transition(m, cleared_lines, d, b2b_chain, surge_charge)
            == (b2b_chain, surge_charge, 0int, 0int),
{
}

/// The first difficult clear of a streak earns no bonus; the second and
/// third earn 1, and the fourth to eighth earn 2.
pub proof fn lemma_b2b_bonus_start(chain_len: int)
    ensures
        chain_len <= 1 ==> b2b_bonus(chain_len) == 0,
        2 <= chain_len <= 3 ==> b2b_bonus(chain_len) == 1,
        4 <= chain_len <= 8 ==> b2b_bonus(chain_len) == 2,
{
}

/// Which clears are difficult: any clear of at least one line that comes
/// with a spin, whatever the line count, or that empties the board, and every
/// quad; a single, double or triple without a spin or a perfect clear is
/// not, and neither is a placement that clears nothing. A difficult clear
/// keeps the back-to-back streak, an easy one with lines breaks it.
pub proof fn lemma_difficult_clears(cleared_lines: int, has_spin: bool, perfect_clear: bool)
    ensures
        cleared_lines >= 1 && has_spin ==> difficult(cleared_lines, has_spin, perfect_clear),
        cleared_lines >= 1 && perfect_clear ==> difficult(cleared_lines, has_spin, perfect_clear),
        cleared_lines == 4 ==> difficult(cleared_lines, has_spin, perfect_clear),
        1 <= cleared_lines <= 3 && !has_spin && !perfect_clear ==> !difficult(cleared_lines, has_spin, perfect_clear),
        cleared_lines <= 0 ==> !difficult(cleared_lines, has_spin, perfect_clear),
{
}

/// The base attack table. With no lines nothing is sent; a clear that
/// empties the board is a perfect clear worth 5. Otherwise a T-spin mini
/// sends 1 for a double and nothing else, never more than a full T-spin of
/// as many lines; a full T-spin sends twice its lines up to a triple; any
/// other clear sends 0, 1, 2 and 4 for a single, double, triple and quad.
pub proof fn lemma_base_attack_table(cleared_lines: int, board_after_clear: Seq<i8>)
    ensures
        cleared_lines <= 0 ==> forall|t: Option<bool>| #[trigger] base_attack(cleared_lines, t, board_after_clear) == (0int, false),
        cleared_lines > 0 && board_empty(board_after_clear) ==> forall|t: Option<bool>|
            #[trigger] base_attack(cleared_lines, t, board_after_clear) == (5int, true),
        cleared_lines > 0 && !board_empty(board_after_clear) ==> {
            &&& base_attack(cleared_lines, Some(true), board_after_clear) == (if cleared_lines == 2 { 1int } else { 0int }, false)
            &&& base_attack(cleared_lines, Some(true), board_after_clear).0 <= 1
            &&& base_attack(cleared_lines, Some(false), board_after_clear).0 == (if cleared_lines <= 3 { 2 * cleared_lines } else { 0 })
            &&& base_attack(cleared_lines, Some(false), board_after_clear).1 == false
            &&& cleared_lines <= 3 ==> base_attack(cleared_lines, Some(true), board_after_clear).0 < base_attack(cleared_lines, Some(false), board_after_clear).0
            &&& base_attack(cleared_lines, None, board_after_clear) == (if cleared_lines == 4 {
                4int
            } else if 2 <= cleared_lines <= 3 {
                cleared_lines - 1
            } else {
                0int
            }, false)
        },
{
}

proof fn lemma_thresholds_bounds(combo: int, n: int)
    requires
        0 <= n <= 21,
    ensures
        0 <= thresholds_reached(combo, n) <= n,
        n >= 1 && combo >= 2 ==> thresholds_reached(combo, n) >= 1,
        combo < 2 ==> thresholds_reached(combo, n) == 0,
    decreases n,
{
    if n > 0 {
        lemma_thresholds_bounds(combo, n - 1);
        if n == 1 {
            assert(COMBO_LOG_THRESHOLDS[0] == 2);
        }
        assert(COMBO_LOG_THRESHOLDS[n - 1] >= 2);
    }
}

/// For every positive base attack b and combo c >= 0 the combo attack is
/// floor(b * (4 + c) / 4), that is b plus a quarter of b per combo step
/// rounded down, capped at i32::MAX; it is never below b, and at combo 0 it
/// is b itself. With no base attack, combos 0 and 1 send nothing and from
/// combo 2 on the logarithmic ladder sends between 1 and 21.
pub proof fn lemma_combo_attack_floor(base_attack: int, combo: int)
    ensures
        base_attack > 0 && combo >= 0 ==> combo_attack(base_attack, combo) == (if base_attack * (4 + combo) / 4 > i32::MAX {
            i32::MAX as int
        } else {
            base_attack * (4 + combo) / 4
        }),
        base_attack > 0 && combo >= 0 ==> base_attack * (4 + combo) / 4 == base_attack + base_attack * combo / 4,
        0 < base_attack <= i32::MAX && combo >= 0 ==> combo_attack(base_attack, combo) >= base_attack,
        0 < base_attack <= i32::MAX ==> combo_attack(base_attack, 0) == base_attack,
        base_attack <= 0 && combo < 2 ==> combo_attack(base_attack, combo) == 0,
        base_attack <= 0 && combo >= 2 ==> 1 <= combo_attack(base_attack, combo) <= 21,
{
    if base_attack > 0 && combo >= 0 {
        assert(base_attack * (4 + combo) == 4 * base_attack + base_attack * combo) by (nonlinear_arith);
        assert(base_attack * combo >= 0) by (nonlinear_arith)
            requires
                base_attack > 0,
                combo >= 0,
        ;
        assert(base_attack * (4 + combo) / 4 == base_attack + base_attack * combo / 4);
        assert(base_attack * (4 + combo) / 4 >= base_attack);
    }
    if base_attack > 0 {
        assert(base_attack * (4 + 0) == 4 * base_attack) by (nonlinear_arith);
        assert(base_attack * (4 + 0) / 4 == base_attack);
    }
    if base_attack <= 0 {
        lemma_thresholds_bounds(combo, 21);
    }
}

} // verus!
