//! Valuation of a token balance in XDR: balance, times ICP per token, times
//! XDR per ICP, in rust_decimal's decimal arithmetic.
use vstd::prelude::*;

verus! {

/// The largest mantissa magnitude of a decimal, 2^96 - 1.
pub const MAX_MANTISSA: i128 = 0xFFFF_FFFF_FFFF_FFFF_FFFF_FFFF;

/// The largest scale of a decimal.
pub const MAX_SCALE: u32 = 28;

/// The number of e8s in one token.
pub const E8: u64 = 100_000_000;

/// A decimal number `mantissa / 10^scale`, as rust_decimal's `Decimal`
/// represents it.
#[derive(Clone, Copy, Debug, PartialEq, Eq, Structural)]
pub struct Dec {
    pub mantissa: i128,
    pub scale: u32,
}

impl Dec {
    /// Within the range of `Decimal`.
    pub open spec fn wf(self) -> bool {
        -MAX_MANTISSA <= self.mantissa <= MAX_MANTISSA && self.scale <= MAX_SCALE
    }

    /// The whole number `n`.
    pub fn from_u64(n: u64) -> (r: Dec)
        ensures
            r.wf(),
            r == (Dec { mantissa: n as i128, scale: 0 }),
    {
        Dec { mantissa: n as i128, scale: 0 }
    }
}

/// The decimal that `Decimal::checked_mul` returns for two operands.
pub uninterp spec fn decimal_product(a: Dec, b: Dec) -> Option<Dec>;

/// The decimal that `Decimal::checked_div` returns for two operands.
pub uninterp spec fn decimal_quotient(a: Dec, b: Dec) -> Option<Dec>;

/// Relies on rust_decimal's `Decimal::checked_mul`: the product, or `None`
/// on overflow. Every `Decimal` has a mantissa below 2^96 in magnitude and a
/// scale of at most 28.
#[verifier::external_body]
fn checked_mul(a: Dec, b: Dec) -> (r: Option<Dec>)
    requires
        a.wf(),
        b.wf(),
    ensures
        r == decimal_product(a, b),
        r matches Some(d) ==> d.wf(),
{
    let x = rust_decimal::Decimal::from_i128_with_scale(a.mantissa, a.scale);
    let y = rust_decimal::Decimal::from_i128_with_scale(b.mantissa, b.scale);
    x.checked_mul(y).map(|d| Dec { mantissa: d.mantissa(), scale: d.scale() })
}

/// Relies on rust_decimal's `Decimal::checked_div`: the quotient, or `None`
/// on overflow or when the divisor is zero. Every `Decimal` has a mantissa
/// below 2^96 in magnitude and a scale of at most 28.
#[verifier::external_body]
fn checked_div(a: Dec, b: Dec) -> (r: Option<Dec>)
    requires
        a.wf(),
        b.wf(),
    ensures
        r == decimal_quotient(a, b),
        b.mantissa == 0 ==> r is None,
        r matches Some(d) ==> d.wf(),
{
    let x = rust_decimal::Decimal::from_i128_with_scale(a.mantissa, a.scale);
    let y = rust_decimal::Decimal::from_i128_with_scale(b.mantissa, b.scale);
    x.checked_div(y).map(|d| Dec { mantissa: d.mantissa(), scale: d.scale() })
}

/// The token that a balance is held in.
#[derive(Clone, Copy, Debug, PartialEq, Eq, Structural)]
pub enum Token {
    Icp,
    /// The native token of the SNS.
    SnsToken,
}

/// An account on a ledger: an owner principal's bytes and an optional
/// subaccount.
#[derive(Clone, Debug, PartialEq, Eq)]
pub struct Account {
    pub owner: Vec<u8>,
    pub subaccount: Option<Vec<u8>>,
}

/// The three factors whose product is a valuation in XDR.
#[derive(Clone, Copy, Debug, PartialEq, Eq, Structural)]
pub struct ValuationFactors {
    pub tokens: Dec,
    pub icps_per_token: Dec,
    pub xdrs_per_icp: Dec,
}

/// The product of three decimals, multiplied left to right.
pub open spec fn product3(a: Dec, b: Dec, c: Dec) -> Option<Dec> {
    match decimal_product(a, b) {
        Some(p) => decimal_product(p, c),
        None => None,
    }
}

impl ValuationFactors {
    pub open spec fn wf(self) -> bool {
        self.tokens.wf() && self.icps_per_token.wf() && self.xdrs_per_icp.wf()
    }

    /// The value in XDR: tokens times ICP per token times XDR per ICP;
    /// `None` when the product overflows.
    pub fn to_xdr(&self) -> (r: Option<Dec>)
        requires
            self.wf(),
        ensures
            r == product3(self.tokens, self.icps_per_token, self.xdrs_per_icp),
    {
        match checked_mul(self.tokens, self.icps_per_token) {
            Some(p) => checked_mul(p, self.xdrs_per_icp),
            None => None,
        }
    }
}

/// A balance with its valuation, taken at `timestamp_nanos` (since the Unix
/// epoch).
#[derive(Clone, Debug, PartialEq, Eq)]
pub struct Valuation {
    pub token: Token,
    pub account: Account,
    pub timestamp_nanos: u64,
    pub valuation_factors: ValuationFactors,
}

impl Valuation {
    pub fn to_xdr(&self) -> (r: Option<Dec>)
        requires
            self.valuation_factors.wf(),
        ensures
            r == product3(
                self.valuation_factors.tokens,
                self.valuation_factors.icps_per_token,
                self.valuation_factors.xdrs_per_icp,
            ),
    {
        self.valuation_factors.to_xdr()
    }
}

/// The kind of a valuation failure.
#[derive(Clone, Copy, Debug, PartialEq, Eq, Structural)]
pub enum ValuationErrorSpecies {
    /// Needed data from another canister, but was not able to get a reply.
    External,
    /// Got a reply from another canister, but the reply did not contain the
    /// needed data.
    Mismatch,
    /// Overflow, underflow, division by zero and the like.
    Arithmetic,
}

#[derive(Clone, Debug, PartialEq, Eq)]
pub struct ValuationError {
    pub species: ValuationErrorSpecies,
    /// Human-readable: what could not be done, and why.
    pub message: String,
}

impl ValuationError {
    pub fn new_external(message: String) -> (r: Self)
        ensures
            r.species == ValuationErrorSpecies::External,
            r.message@ == message@,
    {
        ValuationError { message, species: ValuationErrorSpecies::External }
    }

    pub fn new_mismatch(message: String) -> (r: Self)
        ensures
            r.species == ValuationErrorSpecies::Mismatch,
            r.message@ == message@,
    {
        ValuationError { message, species: ValuationErrorSpecies::Mismatch }
    }

    pub fn new_arithmetic(message: String) -> (r: Self)
        ensures
            r.species == ValuationErrorSpecies::Arithmetic,
            r.message@ == message@,
    {
        ValuationError { message, species: ValuationErrorSpecies::Arithmetic }
    }
}

/// `prefix` followed by `detail`.
fn explain(prefix: &str, detail: &String) -> (r: String)
    ensures
        r@ == prefix@ + detail@,
{
    let mut s = String::from_str(prefix);
    s.append(detail.as_str());
    s
}

/// The number of tokens in a balance of `e8s`.
pub fn tokens_from_e8s(e8s: u64) -> (r: Option<Dec>)
    ensures
        r == decimal_quotient(Dec { mantissa: e8s as i128, scale: 0 }, Dec { mantissa: E8 as i128, scale: 0 }),
        r matches Some(d) ==> d.wf(),
{
    checked_div(Dec::from_u64(e8s), Dec::from_u64(E8))
}

/// Combines the three fetched ingredients of a valuation: the balance in
/// e8s, the ICP per token and the XDR per ICP. A failed fetch becomes an
/// `External` error, the first in that order; a balance that cannot be
/// converted to tokens becomes an `Arithmetic` error.
pub fn try_get_balance_valuation_factors(
    account_balance: Result<u64, String>,
    icps_per_token: Result<Dec, ValuationError>,
    xdrs_per_icp: Result<Dec, ValuationError>,
) -> (r: Result<ValuationFactors, ValuationError>)
    requires
        icps_per_token matches Ok(d) ==> d.wf(),
        xdrs_per_icp matches Ok(d) ==> d.wf(),
    ensures
        match (account_balance, icps_per_token, xdrs_per_icp) {
            (Err(e), _, _) => r matches Err(v) && v.species == ValuationErrorSpecies::External
                && v.message@ == "Unable to obtain balance from ledger: "@ + e@,
            (Ok(_), Err(e), _) => r matches Err(v) && v.species == ValuationErrorSpecies::External
                && v.message@ == "Unable to determine ICPs per token: "@ + e.message@,
            (Ok(_), Ok(_), Err(e)) => r matches Err(v) && v.species == ValuationErrorSpecies::External
                && v.message@ == "Unable to obtain XDR per ICP: "@ + e.message@,
            (Ok(b), Ok(i), Ok(x)) => match tokens_of(b) {
                Some(t) => r == Ok::<ValuationFactors, ValuationError>(
                    ValuationFactors { tokens: t, icps_per_token: i, xdrs_per_icp: x },
                ),
                None => r matches Err(v) && v.species == ValuationErrorSpecies::Arithmetic,
            },
        },
        r matches Ok(f) ==> f.wf(),
{
    let balance = match account_balance {
        Ok(b) => b,
        Err(e) => {
            return Err(ValuationError::new_external(explain("Unable to obtain balance from ledger: ", &e)));
        },
    };
    let icps_per_token = match icps_per_token {
        Ok(d) => d,
        Err(e) => {
            return Err(ValuationError::new_external(explain("Unable to determine ICPs per token: ", &e.message)));
        },
    };
    let xdrs_per_icp = match xdrs_per_icp {
        Ok(d) => d,
        Err(e) => {
            return Err(ValuationError::new_external(explain("Unable to obtain XDR per ICP: ", &e.message)));
        },
    };
    match tokens_from_e8s(balance) {
        Some(tokens) => Ok(ValuationFactors { tokens, icps_per_token, xdrs_per_icp }),
        None => Err(ValuationError::new_arithmetic(String::from_str("Unable to convert the balance from e8s to tokens."))),
    }
}

/// What `tokens_from_e8s` gives for a balance.
pub open spec fn tokens_of(e8s: u64) -> Option<Dec> {
    decimal_quotient(Dec { mantissa: e8s as i128, scale: 0 }, Dec { mantissa: E8 as i128, scale: 0 })
}

/// Attaches the token, the account and the time to valuation factors.
fn attach(
    token: Token,
    account: Account,
    timestamp_nanos: u64,
    factors: Result<ValuationFactors, ValuationError>,
) -> (r: Result<Valuation, ValuationError>)
    ensures
        match factors {
            Ok(f) => r == Ok::<Valuation, ValuationError>(
                Valuation { token, account, timestamp_nanos, valuation_factors: f },
            ),
            Err(e) => r == Err::<Valuation, ValuationError>(e),
        },
{
    match factors {
        Ok(valuation_factors) => Ok(Valuation { token, account, timestamp_nanos, valuation_factors }),
        Err(e) => Err(e),
    }
}

/// Values an ICP balance: one ICP per token, and the fetched XDR per ICP.
pub fn try_get_icp_balance_valuation(
    account: Account,
    timestamp_nanos: u64,
    account_balance: Result<u64, String>,
    xdrs_per_icp: Result<Dec, ValuationError>,
) -> (r: Result<Valuation, ValuationError>)
    requires
        xdrs_per_icp matches Ok(d) ==> d.wf(),
    ensures
        match try_get_balance_valuation_factors_spec(account_balance, Ok(Dec { mantissa: 1, scale: 0 }), xdrs_per_icp) {
            Some(f) => r == Ok::<Valuation, ValuationError>(
                Valuation { token: Token::Icp, account, timestamp_nanos, valuation_factors: f },
            ),
            None => r is Err,
        },
{
    let factors = try_get_balance_valuation_factors(account_balance, Ok(Dec::from_u64(1)), xdrs_per_icp);
    attach(Token::Icp, account, timestamp_nanos, factors)
}

/// Values a balance of an SNS's own token, from the fetched ICP per token
/// and XDR per ICP.
pub fn try_get_sns_token_balance_valuation(
    account: Account,
    timestamp_nanos: u64,
    account_balance: Result<u64, String>,
    icps_per_token: Result<Dec, ValuationError>,
    xdrs_per_icp: Result<Dec, ValuationError>,
) -> (r: Result<Valuation, ValuationError>)
    requires
        icps_per_token matches Ok(d) ==> d.wf(),
        xdrs_per_icp matches Ok(d) ==> d.wf(),
    ensures
        match try_get_balance_valuation_factors_spec(account_balance, icps_per_token, xdrs_per_icp) {
            Some(f) => r == Ok::<Valuation, ValuationError>(
                Valuation { token: Token::SnsToken, account, timestamp_nanos, valuation_factors: f },
            ),
            None => r is Err,
        },
{
    let factors = try_get_balance_valuation_factors(account_balance, icps_per_token, xdrs_per_icp);
    attach(Token::SnsToken, account, timestamp_nanos, factors)
}

/// The factors a valuation succeeds with, if it does.
pub open spec fn try_get_balance_valuation_factors_spec(
    account_balance: Result<u64, String>,
    icps_per_token: Result<Dec, ValuationError>,
    xdrs_per_icp: Result<Dec, ValuationError>,
) -> Option<ValuationFactors> {
    match (account_balance, icps_per_token, xdrs_per_icp) {
        (Ok(b), Ok(i), Ok(x)) => match tokens_of(b) {
            Some(t) => Some(ValuationFactors { tokens: t, icps_per_token: i, xdrs_per_icp: x }),
            None => None,
        },
        _ => None,
    }
}

/// Turns an XDR rate given in permyriad (ten-thousandths) into XDR per ICP.
pub fn xdrs_per_icp_from_permyriad(xdr_permyriad_per_icp: u64) -> (r: Option<Dec>)
    ensures
        r == decimal_product(Dec { mantissa: xdr_permyriad_per_icp as i128, scale: 0 }, Dec { mantissa: 1, scale: 4 }),
        r matches Some(d) ==> d.wf(),
{
    checked_mul(Dec::from_u64(xdr_permyriad_per_icp), Dec { mantissa: 1, scale: 4 })
}

/// Works out ICP per SNS token from a swap canister's replies.
pub struct IcpsPerSnsTokenClient {
    swap_canister_id: Vec<u8>,
}

impl IcpsPerSnsTokenClient {
    pub closed spec fn spec_swap_canister_id(&self) -> Seq<u8> {
        self.swap_canister_id@
    }

    pub fn new(swap_canister_id: Vec<u8>) -> (r: Self)
        ensures
            r.spec_swap_canister_id() == swap_canister_id@,
    {
        IcpsPerSnsTokenClient { swap_canister_id }
    }

    /// ICP per SNS token: the ICP that buyers committed in the swap divided
    /// by the SNS tokens it sells. `buyer_total_icp_e8s` comes from the
    /// derived state, `sns_token_e8s` from the init record (`None` when the
    /// record itself is absent). A missing field is a `Mismatch`; a division
    /// that fails (by zero, or on overflow) is `Arithmetic`.
    pub fn fetch_icps_per_sns_token(
        &self,
        buyer_total_icp_e8s: Option<u64>,
        sns_token_e8s: Option<Option<u64>>,
    ) -> (r: Result<Dec, ValuationError>)
        ensures
            match (buyer_total_icp_e8s, sns_token_e8s) {
                (None, _) => r matches Err(e) && e.species == ValuationErrorSpecies::Mismatch,
                (Some(_), None) => r matches Err(e) && e.species == ValuationErrorSpecies::Mismatch,
                (Some(_), Some(None)) => r matches Err(e) && e.species == ValuationErrorSpecies::Mismatch,
                (Some(b), Some(Some(s))) => match decimal_quotient(
                    Dec { mantissa: b as i128, scale: 0 },
                    Dec { mantissa: s as i128, scale: 0 },
                ) {
                    Some(q) => r == Ok::<Dec, ValuationError>(q),
                    None => r matches Err(e) && e.species == ValuationErrorSpecies::Arithmetic,
                },
            },
            buyer_total_icp_e8s is Some && sns_token_e8s == Some(Some(0u64)) ==> (r matches Err(e)
                && e.species == ValuationErrorSpecies::Arithmetic),
            r matches Ok(d) ==> d.wf(),
    {
        let buyer = match buyer_total_icp_e8s {
            Some(b) => b,
            None => {
                return Err(ValuationError::new_mismatch(String::from_str(
                    "Response from swap get_derived_state call did not contain buyer_total_icp_e8s.",
                )));
            },
        };
        let sns = match sns_token_e8s {
            Some(Some(s)) => s,
            Some(None) => {
                return Err(ValuationError::new_mismatch(String::from_str(
                    "init.sns_token_e8s field in GetInitResponse from swap empty.",
                )));
            },
            None => {
                return Err(ValuationError::new_mismatch(String::from_str(
                    "init field in GetInitResponse from swap empty.",
                )));
            },
        };
        match checked_div(Dec::from_u64(buyer), Dec::from_u64(sns)) {
            Some(q) => Ok(q),
            None => Err(ValuationError::new_arithmetic(String::from_str(
                "Unable to determine the price of an SNS token (with respect to ICP), because \
                 the sns_token_e8s field in the GetInitResponse from swap was zero.",
            ))),
        }
    }
}

/// Runtime for calls to other canisters through the dfn_core API. The host
/// canister makes the calls and hands their replies to the functions above.
pub struct DfnRuntime;

} // verus!
