//! Display metadata for a mint: name, symbol, decimals and price, with
//! the label rule the report prints holders and holdings under.

use vstd::prelude::*;
use vstd::string::StringExecFns;

verus! {

/// Display name/symbol/decimals/price for a mint, each optional.
pub struct TokenMetadata {
    /// Display name, when the indexing service knows one.
    pub name: Option<String>,
    /// Ticker symbol, when the indexing service knows one.
    pub symbol: Option<String>,
    /// Decimals, when the indexing service reports them.
    pub decimals: Option<u8>,
    /// Price in micro-USD per whole token, when one is embedded.
    pub price_micro: Option<u64>,
}

/// View of an optional string as an optional character sequence.
pub open spec fn opt_str_view(o: Option<String>) -> Option<Seq<char>> {
    match o {
        Some(s) => Some(s@),
        None => None,
    }
}

impl Clone for TokenMetadata {
    fn clone(&self) -> (r: Self)
        ensures
            r == *self,
    {
        TokenMetadata {
            name: match &self.name {
                Some(s) => Some(s.clone()),
                None => None,
            },
            symbol: match &self.symbol {
                Some(s) => Some(s.clone()),
                None => None,
            },
            decimals: self.decimals,
            price_micro: self.price_micro,
        }
    }
}

impl Default for TokenMetadata {
    /// Metadata that knows nothing of the mint, used when a lookup fails.
    fn default() -> (r: Self)
        ensures
            r.name is None,
            r.symbol is None,
            r.decimals is None,
            r.price_micro is None,
    {
        TokenMetadata { name: None, symbol: None, decimals: None, price_micro: None }
    }
}

/// The label a mint is shown under: a non-empty symbol, joined with the
/// name when that adds something; else a non-empty name; else the
/// caller's fallback text.
pub open spec fn spec_label(
    name: Option<Seq<char>>,
    symbol: Option<Seq<char>>,
    fallback: Seq<char>,
) -> Seq<char> {
    let sy_ok = symbol is Some && symbol->Some_0.len() > 0;
    let n_ok = name is Some && name->Some_0.len() > 0;
    if sy_ok {
        if n_ok && name->Some_0 != symbol->Some_0 {
            symbol->Some_0 + " / "@ + name->Some_0
        } else {
            symbol->Some_0
        }
    } else if n_ok {
        name->Some_0
    } else {
        fallback
    }
}

impl TokenMetadata {
    /// Renders the label this metadata gives a mint, with `fallback` for
    /// a mint nothing is known about.
    pub fn label(&self, fallback: &str) -> (r: String)
        ensures
            r@ == spec_label(opt_str_view(self.name), opt_str_view(self.symbol), fallback@),
    {
        match &self.symbol {
            Some(sy) => {
                if !sy.as_str().is_empty() {
                    match &self.name {
                        Some(n) => {
                            if !n.as_str().is_empty() && !(*n == *sy) {
                                let mut out = sy.clone();
                                out.append(" / ");
                                out.append(n.as_str());
                                proof {
                                    assert(out@ =~= sy@ + " / "@ + n@);
                                }
                                return out;
                            }
                        },
                        None => {
                        },
                    }
                    return sy.clone();
                }
            },
            None => {
            },
        }
        match &self.name {
            Some(n) => {
                if !n.as_str().is_empty() {
                    return n.clone();
                }
            },
            None => {
            },
        }
        fallback.to_owned()
    }
}

/// Builds display metadata from the fields the indexing service hands
/// back for an asset: the content symbol wins over the token-info symbol,
/// and a reported decimals value outside a byte's range is dropped.
pub fn metadata_from_parts(
    name: Option<String>,
    symbol: Option<String>,
    fallback_symbol: Option<String>,
    decimals_raw: Option<i32>,
    price_micro: Option<u64>,
) -> (r: TokenMetadata)
    ensures
        r.name == name,
        r.symbol == (if symbol is Some {
            symbol
        } else {
            fallback_symbol
        }),
        r.decimals == (match decimals_raw {
            Some(d) => if 0 <= d <= 255 {
                Some(d as u8)
            } else {
                None
            },
            None => None,
        }),
        r.price_micro == price_micro,
{
    let chosen_symbol = match symbol {
        Some(s) => Some(s),
        None => fallback_symbol,
    };
    let decimals = match decimals_raw {
        Some(d) => if 0 <= d && d <= 255 {
            Some(d as u8)
        } else {
            None
        },
        None => None,
    };
    TokenMetadata { name, symbol: chosen_symbol, decimals, price_micro }
}

} // verus!
