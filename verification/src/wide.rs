//! Whole numbers of any size, as far as comparing products and sums takes.

use vstd::prelude::*;

verus! {

/// What a digit counts to.
pub const BASE: u64 = 0x1_0000_0000;

/// The number that digits stand for, the lowest first.
pub open spec fn value(digits: Seq<u32>) -> nat
    decreases digits.len(),
{
    if digits.len() == 0 {
        0
    } else {
        digits[0] as nat + BASE as nat * value(digits.skip(1))
    }
}

/// A whole number.
pub struct Wide {
    /// Its digits, the lowest first.
    pub digits: Vec<u32>,
}

impl View for Wide {
    type V = nat;

    open spec fn view(&self) -> nat {
        value(self.digits@)
    }
}

/// How two numbers stand.
#[derive(Debug, Clone, Copy, PartialEq, Eq, Structural)]
pub enum Standing {
    Below,
    Same,
    Above,
}

proof fn lemma_front(low: u32, rest: Seq<u32>)
    ensures
        value(seq![low] + rest) == low as nat + BASE as nat * value(rest),
{
    assert((seq![low] + rest).skip(1) =~= rest);
}

proof fn lemma_from(digits: Seq<u32>, from: int)
    requires
        0 <= from < digits.len(),
    ensures
        value(digits.skip(from)) == digits[from] as nat + BASE as nat * value(
            digits.skip(from + 1),
        ),
{
    assert(digits.skip(from).skip(1) =~= digits.skip(from + 1));
}

fn put_front(low: u32, rest: Vec<u32>) -> (r: Vec<u32>)
    ensures
        value(r@) == low as nat + BASE as nat * value(rest@),
{
    let ghost before = rest@;
    let mut r = rest;
    r.insert(0, low);
    assert(r@ =~= seq![low] + before);
    proof {
        lemma_front(low, before);
    }
    r
}

fn scale(a: &Vec<u32>, from: usize, factor: u32, carry: u32) -> (r: Vec<u32>)
    requires
        from <= a@.len(),
    ensures
        value(r@) == factor as nat * value(a@.skip(from as int)) + carry as nat,
    decreases a@.len() - from,
{
    if from == a.len() {
        assert(a@.skip(from as int) =~= seq![]);
        let ghost rest = value(a@.skip(from as int));
        assert(factor as nat * rest == 0) by (nonlinear_arith)
            requires
                rest == 0,
        ;
        let none: Vec<u32> = Vec::new();
        assert(value(none@) == 0);
        return put_front(carry, none);
    }
    let digit: u32 = a[from];
    assert(digit as u64 * factor as u64 <= 0xffff_fffe_0000_0001) by (nonlinear_arith)
        requires
            digit <= 0xffff_ffff,
            factor <= 0xffff_ffff,
    ;
    let total: u64 = digit as u64 * factor as u64 + carry as u64;
    let low: u32 = (total % BASE) as u32;
    let high: u32 = (total / BASE) as u32;
    let rest = scale(a, from + 1, factor, high);
    let r = put_front(low, rest);
    proof {
        lemma_from(a@, from as int);
        let tail = value(a@.skip(from + 1)) as int;
        let d = digit as int;
        let k = factor as int;
        assert(total == low + BASE * high);
        assert(k * (d + BASE * tail) + carry == low + BASE * (k * tail + high)) by (nonlinear_arith)
            requires
                d * k + carry == low + BASE * high,
        ;
        assert(value(r@) == low as nat + BASE as nat * (factor as nat * value(a@.skip(from + 1))
            + high as nat));
    }
    r
}

fn plus(a: &Vec<u32>, b: &Vec<u32>, from: usize, carry: u32) -> (r: Vec<u32>)
    requires
        carry <= 1,
        from <= a@.len() || from <= b@.len(),
    ensures
        value(r@) == (if from <= a@.len() {
            value(a@.skip(from as int))
        } else {
            0
        }) + (if from <= b@.len() {
            value(b@.skip(from as int))
        } else {
            0
        }) + carry as nat,
    decreases a@.len() + b@.len() + 2 - from,
{
    let n: usize = a.len();
    let m: usize = b.len();
    if from >= n && from >= m {
        proof {
            if from <= n {
                assert(a@.skip(from as int) =~= seq![]);
            }
            if from <= m {
                assert(b@.skip(from as int) =~= seq![]);
            }
        }
        let none: Vec<u32> = Vec::new();
        assert(value(none@) == 0);
        return put_front(carry, none);
    }
    let x: u64 = if from < n {
        a[from] as u64
    } else {
        0
    };
    let y: u64 = if from < m {
        b[from] as u64
    } else {
        0
    };
    let total: u64 = x + y + carry as u64;
    let low: u32 = (total % BASE) as u32;
    let high: u32 = (total / BASE) as u32;
    let rest = plus(a, b, from + 1, high);
    let r = put_front(low, rest);
    proof {
        if from < n {
            lemma_from(a@, from as int);
        } else if from == n {
            assert(a@.skip(from as int) =~= seq![]);
        }
        if from < m {
            lemma_from(b@, from as int);
        } else if from == m {
            assert(b@.skip(from as int) =~= seq![]);
        }
        assert(total == low + BASE * high);
    }
    r
}

fn product(a: &Vec<u32>, b: &Vec<u32>, from: usize) -> (r: Vec<u32>)
    requires
        from <= b@.len(),
    ensures
        value(r@) == value(a@) * value(b@.skip(from as int)),
    decreases b@.len() - from,
{
    if from == b.len() {
        assert(b@.skip(from as int) =~= seq![]);
        let none: Vec<u32> = Vec::new();
        assert(value(none@) == 0);
        let ghost x = value(a@);
        let ghost rest = value(b@.skip(from as int));
        assert(x * rest == 0) by (nonlinear_arith)
            requires
                rest == 0,
        ;
        return none;
    }
    let first = scale(a, 0, b[from], 0);
    assert(a@.skip(0) =~= a@);
    let rest = product(a, b, from + 1);
    let shifted = put_front(0, rest);
    let r = plus(&first, &shifted, 0, 0);
    proof {
        assert(first@.skip(0) =~= first@);
        assert(shifted@.skip(0) =~= shifted@);
        lemma_from(b@, from as int);
        let x = value(a@) as int;
        let d = b@[from as int] as int;
        let tail = value(b@.skip(from + 1)) as int;
        assert(x * (d + BASE * tail) == d * x + BASE * (x * tail)) by (nonlinear_arith);
    }
    r
}

fn stand(a: &Vec<u32>, b: &Vec<u32>, from: usize) -> (r: Standing)
    ensures
        ({
            let x = if from <= a@.len() {
                value(a@.skip(from as int))
            } else {
                0
            };
            let y = if from <= b@.len() {
                value(b@.skip(from as int))
            } else {
                0
            };
            match r {
                Standing::Below => x < y,
                Standing::Same => x == y,
                Standing::Above => x > y,
            }
        }),
    decreases a@.len() + b@.len() + 2 - from,
{
    let n: usize = a.len();
    let m: usize = b.len();
    if from >= n && from >= m {
        proof {
            if from <= n {
                assert(a@.skip(from as int) =~= seq![]);
            }
            if from <= m {
                assert(b@.skip(from as int) =~= seq![]);
            }
        }
        return Standing::Same;
    }
    let x: u32 = if from < n {
        a[from]
    } else {
        0
    };
    let y: u32 = if from < m {
        b[from]
    } else {
        0
    };
    let higher = stand(a, b, from + 1);
    proof {
        if from < n {
            lemma_from(a@, from as int);
        } else if from == n {
            assert(a@.skip(from as int) =~= seq![]);
        }
        if from < m {
            lemma_from(b@, from as int);
        } else if from == m {
            assert(b@.skip(from as int) =~= seq![]);
        }
    }
    match higher {
        Standing::Below => Standing::Below,
        Standing::Above => Standing::Above,
        Standing::Same => {
            if x < y {
                Standing::Below
            } else if x > y {
                Standing::Above
            } else {
                Standing::Same
            }
        },
    }
}

impl Wide {
    /// The number of a machine word.
    pub fn from(n: u64) -> (r: Wide)
        ensures
            r@ == n as nat,
    {
        let low: u32 = (n % BASE) as u32;
        let high: u32 = (n / BASE) as u32;
        let none: Vec<u32> = Vec::new();
        assert(value(none@) == 0);
        let upper = put_front(high, none);
        let digits = put_front(low, upper);
        Wide { digits }
    }

    /// The sum of two numbers.
    pub fn sum(&self, other: &Wide) -> (r: Wide)
        ensures
            r@ == self@ + other@,
    {
        let digits = plus(&self.digits, &other.digits, 0, 0);
        assert(self.digits@.skip(0) =~= self.digits@);
        assert(other.digits@.skip(0) =~= other.digits@);
        Wide { digits }
    }

    /// The product of two numbers.
    pub fn times(&self, other: &Wide) -> (r: Wide)
        ensures
            r@ == self@ * other@,
    {
        let digits = product(&self.digits, &other.digits, 0);
        assert(other.digits@.skip(0) =~= other.digits@);
        Wide { digits }
    }

    /// Whether a number is below another.
    pub fn below(&self, other: &Wide) -> (r: bool)
        ensures
            r == (self@ < other@),
    {
        assert(self.digits@.skip(0) =~= self.digits@);
        assert(other.digits@.skip(0) =~= other.digits@);
        match stand(&self.digits, &other.digits, 0) {
            Standing::Below => true,
            _ => false,
        }
    }
}

} // verus!
