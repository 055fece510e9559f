use vstd::prelude::*;

use crate::config::ModelPricing;
use crate::text::{is_prefix, starts_with};

verus! {

/// The prices of the last entry of `pricing` whose model name is a prefix of
/// `model`.
pub open spec fn matching_price(pricing: Seq<ModelPricing>, model: Seq<char>) -> Option<(i64, i64)>
    decreases pricing.len(),
{
    if pricing.len() == 0 {
        None
    } else if is_prefix(pricing.last().model@, model) {
        Some((pricing.last().input_per_m_micros, pricing.last().output_per_m_micros))
    } else {
        matching_price(pricing.drop_last(), model)
    }
}

/// The cost, in millionths of a millionth of a dollar, of `tokens_in` input
/// and `tokens_out` output tokens at the given prices per million tokens in
/// millionths of a dollar.
pub open spec fn cost_of(tokens_in: int, tokens_out: int, input_price: int, output_price: int) -> int {
    tokens_in * input_price + tokens_out * output_price
}

/// The input and output prices of `model`: those of the pricing entry whose
/// model name is a prefix of it (the last such entry, as a later entry for
/// the same name replaces an earlier one).
pub fn find_pricing(pricing: &Vec<ModelPricing>, model: &str) -> (r: Option<(i64, i64)>)
    ensures
        r == matching_price(pricing@, model@),
{
    let mut i = pricing.len();
    assert(pricing@.subrange(0, i as int) =~= pricing@);
    while i > 0
        invariant
            i <= pricing.len(),
            matching_price(pricing@, model@) == matching_price(
                pricing@.subrange(0, i as int),
                model@,
            ),
        decreases i,
    {
        let ghost prefix = pricing@.subrange(0, i as int);
        assert(prefix.drop_last() =~= pricing@.subrange(0, i - 1));
        let p = &pricing[i - 1];
        if starts_with(model, p.model.as_str()) {
            return Some((p.input_per_m_micros, p.output_per_m_micros));
        }
        i = i - 1;
    }
    None
}

/// The exact cost of a request, in millionths of a millionth of a dollar
/// (`None` where it does not fit in 128 bits).
pub fn cost_picodollars(tokens_in: i64, tokens_out: i64, input_price: i64, output_price: i64) -> (r:
    Option<i128>)
    ensures
        match r {
            Some(c) => c == cost_of(
                tokens_in as int,
                tokens_out as int,
                input_price as int,
                output_price as int,
            ),
            None => !(i128::MIN <= cost_of(
                tokens_in as int,
                tokens_out as int,
                input_price as int,
                output_price as int,
            ) <= i128::MAX),
        },
{
    let a = tokens_in as i128;
    let b = input_price as i128;
    let c = tokens_out as i128;
    let d = output_price as i128;
    assert(-0x4000_0000_0000_0000_0000_0000_0000_0000 <= a * b <= 0x4000_0000_0000_0000_0000_0000_0000_0000)
        by (nonlinear_arith)
        requires
            -0x8000_0000_0000_0000 <= a <= 0x7fff_ffff_ffff_ffff,
            -0x8000_0000_0000_0000 <= b <= 0x7fff_ffff_ffff_ffff,
    ;
    assert(-0x4000_0000_0000_0000_0000_0000_0000_0000 <= c * d <= 0x4000_0000_0000_0000_0000_0000_0000_0000)
        by (nonlinear_arith)
        requires
            -0x8000_0000_0000_0000 <= c <= 0x7fff_ffff_ffff_ffff,
            -0x8000_0000_0000_0000 <= d <= 0x7fff_ffff_ffff_ffff,
    ;
    let x = a * b;
    let y = c * d;
    x.checked_add(y)
}

/// The cost of one log row for `model`, at the prices that `pricing` gives it
/// (free where it gives none).
pub fn row_cost(pricing: &Vec<ModelPricing>, model: &str, tokens_in: i64, tokens_out: i64) -> (r:
    Option<i128>)
    ensures
        ({
            let (i, o) = match matching_price(pricing@, model@) {
                Some(p) => p,
                None => (0i64, 0i64),
            };
            match r {
                Some(c) => c == cost_of(tokens_in as int, tokens_out as int, i as int, o as int),
                None => !(i128::MIN <= cost_of(tokens_in as int, tokens_out as int, i as int, o as int)
                    <= i128::MAX),
            }
        }),
{
    let (i, o) = match find_pricing(pricing, model) {
        Some(p) => p,
        None => (0, 0),
    };
    cost_picodollars(tokens_in, tokens_out, i, o)
}


/// The prices found for a model are those of an entry whose model name is a
/// prefix of it, and none are found exactly when no entry's is.
pub proof fn lemma_price_is_of_matching_entry(pricing: Seq<ModelPricing>, model: Seq<char>)
    ensures
        matching_price(pricing, model) matches Some(p) ==> exists|k: int|
            0 <= k < pricing.len() && is_prefix(#[trigger] pricing[k].model@, model) && p == (
                pricing[k].input_per_m_micros,
                pricing[k].output_per_m_micros,
            ),
        matching_price(pricing, model) is None <==> forall|k: int|
            0 <= k < pricing.len() ==> !is_prefix(#[trigger] pricing[k].model@, model),
    decreases pricing.len(),
{
    if pricing.len() > 0 {
        let rest = pricing.drop_last();
        lemma_price_is_of_matching_entry(rest, model);
        if !is_prefix(pricing.last().model@, model) {
            if matching_price(rest, model) is Some {
                let k = choose|k: int|
                    0 <= k < rest.len() && is_prefix(#[trigger] rest[k].model@, model) && matching_price(rest, model)->0 == (
                        rest[k].input_per_m_micros,
                        rest[k].output_per_m_micros,
                    );
                assert(pricing[k] == rest[k]);
            }
            assert forall|k: int| 0 <= k < pricing.len() && matching_price(rest, model) is None implies !is_prefix(
                #[trigger] pricing[k].model@,
                model,
            ) by {
                if k < rest.len() {
                    assert(pricing[k] == rest[k]);
                }
            }
            if matching_price(pricing, model) is Some {
                let k = choose|k: int|
                    0 <= k < rest.len() && is_prefix(#[trigger] rest[k].model@, model) && matching_price(rest, model)->0 == (
                        rest[k].input_per_m_micros,
                        rest[k].output_per_m_micros,
                    );
                assert(pricing[k] == rest[k]);
            }
        } else {
            assert(is_prefix(pricing[pricing.len() - 1].model@, model));
        }
    }
}

/// Pricing the summed tokens of two sets of requests costs what pricing each
/// set does, added up: a report that sums tokens per day and model before
/// pricing them gives the total of the requests' own costs.
pub proof fn lemma_cost_adds_up(
    in_1: int,
    out_1: int,
    in_2: int,
    out_2: int,
    input_price: int,
    output_price: int,
)
    ensures
        cost_of(in_1 + in_2, out_1 + out_2, input_price, output_price) == cost_of(
            in_1,
            out_1,
            input_price,
            output_price,
        ) + cost_of(in_2, out_2, input_price, output_price),
{
    assert((in_1 + in_2) * input_price == in_1 * input_price + in_2 * input_price)
        by (nonlinear_arith);
    assert((out_1 + out_2) * output_price == out_1 * output_price + out_2 * output_price)
        by (nonlinear_arith);
}

/// No tokens cost nothing, at any prices.
pub proof fn lemma_no_tokens_free(input_price: int, output_price: int)
    ensures
        cost_of(0, 0, input_price, output_price) == 0,
{
}

} // verus!
