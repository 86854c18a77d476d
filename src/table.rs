//! The assignment table: one base column per symbol, rows in binary
//! counting order.
use vstd::prelude::*;
use vstd::arithmetic::power2::*;
use vstd::arithmetic::div_mod::*;
use crate::column::{bit_char, is_bitstring};

verus! {

/// Bit `k` of `n`, counting from the least significant bit.
pub open spec fn digit(n: nat, k: nat) -> nat {
    (n / pow2(k)) % 2
}

/// The number of binary digits of `n`; zero is written with one digit.
pub open spec fn bit_len(n: nat) -> nat
    decreases n,
{
    if n < 2 {
        1
    } else {
        1 + bit_len(n / 2)
    }
}

/// The `w` least significant bits of `n`, most significant first.
pub open spec fn binary_digits(n: nat, w: nat) -> Seq<u32> {
    Seq::new(w, |j: int| digit(n, (w - 1 - j) as nat) as u32)
}

/// The number that a sequence of binary digits, most significant first,
/// stands for.
pub open spec fn digits_value(d: Seq<u32>) -> nat
    decreases d.len(),
{
    if d.len() == 0 {
        0
    } else {
        2 * digits_value(d.drop_last()) + d.last() as nat
    }
}

/// The base column of the symbol at position `j` among `n` symbols: row `i`
/// holds bit `j` of the `n`-digit binary expansion of `i`.
pub open spec fn base_column(n: nat, j: nat) -> Seq<char> {
    Seq::new(pow2(n), |i: int| bit_char(digit(i as nat, (n - 1 - j) as nat) == 1))
}

proof fn lemma_digit_shift(n: nat, k: nat)
    ensures
        (n / pow2(k)) / 2 == n / pow2(k + 1),
        (n / pow2(k)) % 2 == digit(n, k),
{
    lemma_pow2_pos(k);
    lemma_pow2_unfold(k + 1);
    lemma_div_denominator(n as int, pow2(k) as int, 2);
    assert(pow2(k) * 2 == pow2(k + 1));
}

proof fn lemma_high_digits_vanish(n: nat, len: nat, k: nat)
    requires
        n / pow2(len) == 0,
        len <= k,
    ensures
        digit(n, k) == 0,
{
    lemma_pow2_pos(len);
    lemma_pow2_pos((k - len) as nat);
    lemma_pow2_adds(len, (k - len) as nat);
    lemma_div_denominator(n as int, pow2(len) as int, pow2((k - len) as nat) as int);
    assert(len + (k - len) as nat == k);
}

/// A number below `2^w`, for `w` at least one, has at most `w` digits.
proof fn lemma_bit_len_bound(n: nat, w: nat)
    requires
        n < pow2(w),
        w >= 1,
    ensures
        bit_len(n) <= w,
    decreases n,
{
    if n >= 2 {
        lemma_pow2_unfold(w);
        if w == 1 {
            assert(pow2(0) == 1) by {
                lemma_pow2(0);
                vstd::arithmetic::power::lemma_pow0(2);
            }
        }
        lemma_bit_len_bound(n / 2, (w - 1) as nat);
    }
}

/// Reading back the `w` digits of a number below `2^w` gives the number.
pub proof fn lemma_binary_round_trip(n: nat, w: nat)
    requires
        n < pow2(w),
    ensures
        digits_value(binary_digits(n, w)) == n,
    decreases w,
{
    if w == 0 {
        assert(pow2(0) == 1) by {
            lemma_pow2(0);
            vstd::arithmetic::power::lemma_pow0(2);
        }
    } else {
        let d = binary_digits(n, w);
        let h = (w - 1) as nat;
        lemma_pow2_unfold(w);
        assert(n / 2 < pow2(h));
        assert forall|j: int| 0 <= j < h implies #[trigger] d.drop_last()[j] == binary_digits(
            n / 2,
            h,
        )[j] by {
            let k = (h - 1 - j) as nat;
            lemma_digit_shift(n, k);
            lemma_digit_shift(n, 0);
            lemma_pow2(0);
            vstd::arithmetic::power::lemma_pow0(2);
            lemma_pow2_pos(k);
            lemma_div_denominator(n as int, 2, pow2(k) as int);
            lemma_pow2_unfold(k + 1);
            assert((n / 2) / pow2(k) == n / pow2(k + 1));
        }
        assert(d.drop_last() =~= binary_digits(n / 2, h));
        lemma_binary_round_trip(n / 2, h);
        lemma_pow2(0);
        vstd::arithmetic::power::lemma_pow0(2);
        assert(d.last() == n % 2);
    }
}

/// The binary digits of `n`, most significant first: as many as `n` needs
/// (one for zero), or `adjust` of them, padded with leading zeros.
pub fn binary_string(n: u32, adjust: Option<u32>) -> (r: Vec<u32>)
    requires
        adjust matches Some(w) ==> bit_len(n as nat) <= w,
    ensures
        adjust is None ==> r@ == binary_digits(n as nat, bit_len(n as nat)),
        adjust matches Some(w) ==> r@ == binary_digits(n as nat, w as nat),
{
    let mut num = n;
    let mut lsb: Vec<u32> = Vec::new();
    if n == 0 {
        lsb.push(0);
    }
    proof {
        lemma_pow2(0);
        vstd::arithmetic::power::lemma_pow0(2);
        lemma_pow2_unfold(1);
        assert((n as nat) / pow2(0) == n as nat);
        assert(0nat / pow2(1) == 0);
    }
    while num != 0
        invariant
            num as nat == (n as nat) / pow2(lsb@.len()),
            n == 0 ==> lsb@.len() == 1,
            if num > 0 {
                lsb@.len() + bit_len(num as nat) == bit_len(n as nat)
            } else {
                lsb@.len() == bit_len(n as nat)
            },
            forall|k: int| 0 <= k < lsb@.len() ==> lsb@[k] as nat == digit(n as nat, k as nat),
        decreases num,
    {
        let div = num / 2;
        let remainder = num - div * 2;
        proof {
            lemma_digit_shift(n as nat, lsb@.len());
        }
        lsb.push(remainder);
        num = div;
    }
    let width: usize = match adjust {
        Some(w) => w as usize,
        None => lsb.len(),
    };
    while lsb.len() < width
        invariant
            (n as nat) / pow2(bit_len(n as nat)) == 0,
            bit_len(n as nat) <= lsb@.len(),
            lsb@.len() <= width,
            width == (match adjust {
                Some(w) => w as nat,
                None => bit_len(n as nat),
            }),
            forall|k: int| 0 <= k < lsb@.len() ==> lsb@[k] as nat == digit(n as nat, k as nat),
        decreases width - lsb@.len(),
    {
        proof {
            lemma_high_digits_vanish(n as nat, bit_len(n as nat), lsb@.len());
        }
        lsb.push(0);
    }
    let len = lsb.len();
    let mut result: Vec<u32> = Vec::new();
    let mut i: usize = 0;
    while i < len
        invariant
            len == lsb@.len(),
            i <= len,
            result@.len() == i,
            forall|j: int| 0 <= j < i ==> result@[j] == lsb@[len - 1 - j],
        decreases len - i,
    {
        result.push(lsb[len - 1 - i]);
        i = i + 1;
    }
    assert(result@ =~= binary_digits(n as nat, len as nat));
    result
}

/// The columns of one evaluation run: the symbols in collected order, the
/// base column of each, and the memo of every sub-expression evaluated so
/// far, as pairs of its canonical text and its column, in the order they
/// were computed.
pub struct Store {
    pub symbols: Vec<char>,
    pub columns: Vec<Vec<char>>,
    pub memo: Vec<(Vec<char>, Vec<char>)>,
}

impl Store {
    /// The base columns as sequences.
    pub open spec fn columns_view(&self) -> Seq<Seq<char>> {
        self.columns@.map_values(|c: Vec<char>| c@)
    }

    /// The memo as pairs of sequences.
    pub open spec fn memo_view(&self) -> Seq<(Seq<char>, Seq<char>)> {
        self.memo@.map_values(|e: (Vec<char>, Vec<char>)| (e.0@, e.1@))
    }

    /// The store holds the assignment table of `tokens` and an empty memo.
    pub open spec fn is_table_of(&self, tokens: Seq<char>) -> bool {
        &&& self.symbols@ == tokens
        &&& self.columns@.len() == tokens.len()
        &&& forall|j: int|
            0 <= j < tokens.len() ==> #[trigger] self.columns@[j]@ == base_column(
                tokens.len(),
                j as nat,
            )
        &&& self.memo@.len() == 0
    }

    /// A symbol names at most one column, and every column is a bitstring
    /// with one position per row.
    pub open spec fn wf(&self, rows: nat) -> bool {
        &&& self.symbols@.no_duplicates()
        &&& self.columns@.len() == self.symbols@.len()
        &&& forall|j: int|
            0 <= j < self.columns@.len() ==> (#[trigger] self.columns@[j])@.len() == rows
                && is_bitstring(self.columns@[j]@)
    }
}

/// Every base column of `n` symbols has `2^n` positions, each `'0'` or `'1'`.
pub proof fn lemma_base_column_shape(n: nat, j: nat)
    ensures
        base_column(n, j).len() == pow2(n),
        is_bitstring(base_column(n, j)),
{
}

/// Row `i` of the base column of the symbol at position `j` is digit `j` of
/// the `n`-digit binary expansion of `i`, and those digits read back as `i`.
pub proof fn lemma_row_round_trip(n: nat, i: nat, j: nat)
    requires
        i < pow2(n),
        j < n,
    ensures
        base_column(n, j)[i as int] == bit_char(binary_digits(i, n)[j as int] == 1),
        digits_value(binary_digits(i, n)) == i,
{
    lemma_binary_round_trip(i, n);
}

/// Builds the assignment table of `tokens`: `2^N` rows for `N` symbols, and
/// for the symbol at position `j` the column whose row `i` is bit `j` of the
/// `N`-digit binary expansion of `i`. With no symbols the table has one
/// empty row and no columns.
pub fn build_initial_table(tokens: &Vec<char>) -> (store: Store)
    requires
        tokens@.len() < 32,
    ensures
        store.is_table_of(tokens@),
        forall|j: int|
            0 <= j < tokens@.len() ==> (#[trigger] store.columns@[j])@.len() == pow2(
                tokens@.len() as nat,
            ),
        tokens@.no_duplicates() ==> store.wf(pow2(tokens@.len() as nat)),
{
    let token_len = tokens.len() as u32;
    let ceiling: u32 = pow2_u32(token_len);
    let mut rows: Vec<Vec<u32>> = Vec::new();
    if token_len > 0 {
        let mut i: u32 = 0;
        while i < ceiling
            invariant
                token_len as nat == tokens@.len(),
                token_len > 0,
                ceiling as nat == pow2(token_len as nat),
                i <= ceiling,
                rows@.len() == i,
                forall|k: int|
                    0 <= k < i ==> (#[trigger] rows@[k])@ == binary_digits(
                        k as nat,
                        token_len as nat,
                    ),
            decreases ceiling - i,
        {
            proof {
                lemma_bit_len_bound(i as nat, token_len as nat);
            }
            rows.push(binary_string(i, Some(token_len)));
            i = i + 1;
        }
    }
    let mut columns: Vec<Vec<char>> = Vec::new();
    let mut j: usize = 0;
    while j < tokens.len()
        invariant
            token_len as nat == tokens@.len(),
            ceiling as nat == pow2(token_len as nat),
            j <= tokens@.len(),
            tokens@.len() > 0 ==> rows@.len() == ceiling,
            forall|k: int|
                0 <= k < rows@.len() ==> (#[trigger] rows@[k])@ == binary_digits(
                    k as nat,
                    token_len as nat,
                ),
            columns@.len() == j,
            forall|m: int|
                0 <= m < j ==> (#[trigger] columns@[m])@ == base_column(
                    tokens@.len(),
                    m as nat,
                ),
        decreases tokens@.len() - j,
    {
        let mut col: Vec<char> = Vec::new();
        let mut i: usize = 0;
        while i < rows.len()
            invariant
                token_len as nat == tokens@.len(),
                j < tokens@.len(),
                rows@.len() == ceiling,
                ceiling as nat == pow2(token_len as nat),
                forall|k: int|
                    0 <= k < rows@.len() ==> (#[trigger] rows@[k])@ == binary_digits(
                        k as nat,
                        token_len as nat,
                    ),
                i <= rows@.len(),
                col@.len() == i,
                forall|k: int|
                    0 <= k < i ==> #[trigger] col@[k] == base_column(tokens@.len(), j as nat)[k],
            decreases rows@.len() - i,
        {
            let bit = rows[i][j];
            col.push(if bit == 1 { '1' } else { '0' });
            i = i + 1;
        }
        assert(col@ =~= base_column(tokens@.len(), j as nat));
        columns.push(col);
        j = j + 1;
    }
    let store = Store { symbols: tokens.clone(), columns, memo: Vec::new() };
    assert(store.symbols@ == tokens@);
    store
}

/// `2^e` for an exponent below 32.
fn pow2_u32(e: u32) -> (r: u32)
    requires
        e < 32,
    ensures
        r as nat == pow2(e as nat),
{
    let mut r: u32 = 1;
    let mut k: u32 = 0;
    proof {
        lemma_pow2(0);
        vstd::arithmetic::power::lemma_pow0(2);
    }
    while k < e
        invariant
            k <= e,
            e < 32,
            r as nat == pow2(k as nat),
        decreases e - k,
    {
        proof {
            lemma_pow2_unfold((k + 1) as nat);
            vstd::arithmetic::power2::lemma_pow2_strictly_increases(k as nat, 31);
            lemma2_to64();
        }
        r = r * 2;
        k = k + 1;
    }
    r
}

} // verus!
