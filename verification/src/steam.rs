//! Steam data: the Wine/Proton prefixes found on disk, the games they belong
//! to, and sizes as the table shows them.
pub mod discovery;
pub mod vdf;

use vstd::prelude::*;
use vstd::string::StringExecFns;
use crate::text::{decimal_string, decimal_text};

verus! {

// ─── Data structures ─────────────────────────────────────────────────────────

/// What Steam knows of the game a prefix belongs to.
#[derive(Debug, Clone)]
pub struct SteamGame {
    pub app_id: u64,
    pub name: String,
    pub cloud_saves: bool,
    pub installed: bool,
}

/// A Wine/Proton prefix directory (`steamapps/compatdata/<app id>`).
#[derive(Debug, Clone)]
pub struct WinePrefix {
    pub app_id: u64,
    /// The prefix directory.
    pub path: String,
    pub size_bytes: u64,
    /// The game, when Steam's files name it.
    pub game: Option<SteamGame>,
}

/// The name shown for a prefix: its game's name, or `Unknown`.
pub open spec fn game_name_of(p: WinePrefix) -> Seq<char> {
    match p.game {
        Some(g) => g.name@,
        None => "Unknown"@,
    }
}

/// A prefix counts as installed only when its game is known and installed.
pub open spec fn installed_of(p: WinePrefix) -> bool {
    match p.game {
        Some(g) => g.installed,
        None => false,
    }
}

/// A prefix has cloud saves only when its game is known and has them.
pub open spec fn cloud_of(p: WinePrefix) -> bool {
    match p.game {
        Some(g) => g.cloud_saves,
        None => false,
    }
}

impl WinePrefix {
    /// The prefix's size as the table shows it (see `human_size`).
    pub fn size_human(&self) -> (r: String)
        ensures
            r@ == human_size_text(self.size_bytes),
    {
        human_size(self.size_bytes)
    }

    /// The game's name, or `Unknown`.
    pub fn game_name(&self) -> (r: String)
        ensures
            r@ == game_name_of(*self),
    {
        match &self.game {
            Some(g) => g.name.clone(),
            None => String::from_str("Unknown"),
        }
    }

    pub fn is_installed(&self) -> (r: bool)
        ensures
            r == installed_of(*self),
    {
        match &self.game {
            Some(g) => g.installed,
            None => false,
        }
    }

    pub fn has_cloud_saves(&self) -> (r: bool)
        ensures
            r == cloud_of(*self),
    {
        match &self.game {
            Some(g) => g.cloud_saves,
            None => false,
        }
    }
}

/// A copy of a prefix record.
pub fn copy_prefix(p: &WinePrefix) -> (r: WinePrefix)
    ensures
        r == *p,
{
    let game = match &p.game {
        Some(g) => Some(
            SteamGame {
                app_id: g.app_id,
                name: g.name.clone(),
                cloud_saves: g.cloud_saves,
                installed: g.installed,
            },
        ),
        None => None,
    };
    WinePrefix { app_id: p.app_id, path: p.path.clone(), size_bytes: p.size_bytes, game }
}

// ─── Human-readable sizes ────────────────────────────────────────────────────

pub open spec fn power(b: nat, e: nat) -> nat
    decreases e,
{
    if e == 0 {
        1
    } else {
        b * power(b, (e - 1) as nat)
    }
}

/// `n / d` rounded to the nearest integer, ties to the even one.
pub open spec fn round_half_even(n: nat, d: nat) -> nat {
    let q = n / d;
    let r = n % d;
    if 2 * r > d || (2 * r == d && q % 2 == 1) {
        q + 1
    } else {
        q
    }
}

/// The least `j` from `j` on at which `b / 2^j` has at most 53 bits.
pub open spec fn f64_scale_exp(b: nat, j: nat) -> nat
    decreases 64 - j,
{
    if j >= 64 || b / power(2, j) < power(2, 53) {
        j
    } else {
        f64_scale_exp(b, j + 1)
    }
}

/// The value of `b as f64`: `b` itself below 2^53, else `b` rounded to the
/// nearest multiple of the spacing of doubles of its magnitude, ties to an
/// even mantissa.
pub open spec fn f64_of(b: nat) -> nat {
    if b < power(2, 53) {
        b
    } else {
        let d = power(2, f64_scale_exp(b, 1));
        round_half_even(b, d) * d
    }
}

/// The unit a value is shown in: the number of times (at most 4) it can be
/// divided by 1024 and stay at least 1024 before the division.
pub open spec fn unit_exp(v: nat, i: nat) -> nat
    decreases 4 - i,
{
    if i < 4 && v >= power(1024, i + 1) {
        unit_exp(v, i + 1)
    } else {
        i
    }
}

pub open spec fn unit_name(i: nat) -> Seq<char> {
    if i == 1 {
        "KiB"@
    } else if i == 2 {
        "MiB"@
    } else if i == 3 {
        "GiB"@
    } else {
        "TiB"@
    }
}

/// A byte count as the table shows it: `<n> B` below 1 KiB, else the value
/// in the largest unit up to TiB that keeps it at least 1, with one decimal,
/// as `format!("{:.1} {}")` prints the double `bytes as f64 / 1024^i`
/// (rounded half to even).
pub open spec fn human_size_text(bytes: u64) -> Seq<char> {
    let v = f64_of(bytes as nat);
    let i = unit_exp(v, 0);
    if i == 0 {
        decimal_text(bytes as nat) + " B"@
    } else {
        let t = round_half_even(10 * v, power(1024, i));
        decimal_text(t / 10) + "."@ + decimal_text(t % 10) + " "@ + unit_name(i)
    }
}

pub proof fn lemma_power_positive(b: nat, e: nat)
    requires
        b >= 1,
    ensures
        power(b, e) >= 1,
    decreases e,
{
    if e > 0 {
        lemma_power_positive(b, (e - 1) as nat);
        assert(b * power(b, (e - 1) as nat) >= 1) by (nonlinear_arith)
            requires
                b >= 1,
                power(b, (e - 1) as nat) >= 1,
        ;
    }
}

pub proof fn lemma_power_monotone(b: nat, e: nat, f: nat)
    requires
        b >= 1,
        e <= f,
    ensures
        power(b, e) <= power(b, f),
    decreases f,
{
    if e < f {
        lemma_power_monotone(b, e, (f - 1) as nat);
        lemma_power_positive(b, (f - 1) as nat);
        assert(power(b, (f - 1) as nat) <= b * power(b, (f - 1) as nat)) by (nonlinear_arith)
            requires
                b >= 1,
                power(b, (f - 1) as nat) >= 1,
        ;
    }
}

/// The value of `b as f64`, as an integer.
fn f64_value(b: u64) -> (v: u128)
    ensures
        v == f64_of(b as nat),
        v <= 18446744073709553664u128,
{
    assert(power(2, 53) == 9007199254740992) by {
        reveal_with_fuel(power, 54);
    }
    if b < 9007199254740992u64 {
        return b as u128;
    }
    let mut j: u64 = 1;
    let mut d: u64 = 2;
    assert(power(2, 1) == 2) by {
        reveal_with_fuel(power, 2);
    }
    assert(power(2, 11) == 2048) by {
        reveal_with_fuel(power, 12);
    }
    while b / d >= 9007199254740992u64
        invariant
            1 <= j <= 11,
            d == power(2, j as nat),
            2 <= d <= 2048,
            power(2, 53) == 9007199254740992,
            power(2, 11) == 2048,
            f64_scale_exp(b as nat, 1) == f64_scale_exp(b as nat, j as nat),
        decreases 11 - j,
    {
        assert(j < 11) by {
            if j == 11 {
                assert(b / 2048 < 9007199254740992);
            }
        }
        assert(power(2, (j + 1) as nat) == 2 * power(2, j as nat));
        proof {
            lemma_power_monotone(2, (j + 1) as nat, 11);
        }
        d = d * 2;
        j = j + 1;
    }
    let q = b / d;
    let r = b % d;
    proof {
        vstd::arithmetic::div_mod::lemma_fundamental_div_mod(b as int, d as int);
    }
    let up = 2 * (r as u128) > d as u128 || (2 * (r as u128) == d as u128 && q % 2 == 1);
    let qq: u128 = if up {
        q as u128 + 1
    } else {
        q as u128
    };
    assert(qq * (d as u128) <= 18446744073709553664u128) by (nonlinear_arith)
        requires
            b == d * q + r,
            r < d,
            d <= 2048,
            qq <= q + 1,
            b < 18446744073709551616u128,
    ;
    qq * (d as u128)
}

/// A byte count in human units, e.g. `512 B`, `1.5 KiB`, `3.2 GiB`.
pub fn human_size(bytes: u64) -> (r: String)
    ensures
        r@ == human_size_text(bytes),
{
    let v = f64_value(bytes);
    let ghost vn = v as nat;
    let mut i: u64 = 0;
    let mut d: u128 = 1;
    while i < 4 && v >= d * 1024
        invariant
            i <= 4,
            d == power(1024, i as nat),
            d <= 1099511627776u128,
            unit_exp(vn, 0) == unit_exp(vn, i as nat),
            vn == v,
        decreases 4 - i,
    {
        assert(power(1024, (i + 1) as nat) == 1024 * power(1024, i as nat));
        assert(d * 1024 <= 1099511627776u128) by {
            assert(power(1024, 4) == 1099511627776u128) by {
        reveal_with_fuel(power, 5);
    }
            if i == 3 {
                assert(power(1024, 3) == 1073741824u128) by {
        reveal_with_fuel(power, 4);
    }
            } else if i == 2 {
                assert(power(1024, 2) == 1048576u128) by {
        reveal_with_fuel(power, 3);
    }
            } else if i == 1 {
                assert(power(1024, 1) == 1024u128) by {
        reveal_with_fuel(power, 2);
    }
            }
        }
        d = d * 1024;
        i = i + 1;
    }
    assert(power(1024, (i + 1) as nat) == 1024 * power(1024, i as nat));
    if i == 0 {
        let mut r = decimal_string(bytes);
        r.append(" B");
        return r;
    }
    assert(d >= 1024) by {
        assert(power(1024, 1) == 1024) by {
        reveal_with_fuel(power, 2);
    }
        if i >= 2 {
            assert(power(1024, 2) == 1048576u128) by {
        reveal_with_fuel(power, 3);
    }
        }
        if i >= 3 {
            assert(power(1024, 3) == 1073741824u128) by {
        reveal_with_fuel(power, 4);
    }
        }
        if i >= 4 {
            assert(power(1024, 4) == 1099511627776u128) by {
        reveal_with_fuel(power, 5);
    }
        }
    }
    let n: u128 = 10 * v;
    let q = n / d;
    let rem = n % d;
    let t: u128 = if 2 * rem > d || (2 * rem == d && q % 2 == 1) {
        q + 1
    } else {
        q
    };
    assert(t <= 184467440737095517u128) by (nonlinear_arith)
        requires
            n <= 184467440737095536640u128,
            d >= 1024,
            q == n / d,
            t <= q + 1,
    ;
    let whole = (t / 10) as u64;
    let tenth = (t % 10) as u64;
    let mut r = decimal_string(whole);
    r.append(".");
    let tail = decimal_string(tenth);
    r.append(tail.as_str());
    r.append(" ");
    if i == 1 {
        r.append("KiB");
    } else if i == 2 {
        r.append("MiB");
    } else if i == 3 {
        r.append("GiB");
    } else {
        r.append("TiB");
    }
    r
}

} // verus!
