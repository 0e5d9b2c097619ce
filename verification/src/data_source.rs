//! Data sources a pool can be fetched from, and the capability each source
//! client offers to the surrounding program.

use vstd::prelude::*;

verus! {

use vstd::string::{StrSliceExecFns, StringExecFns};

/// The closed set of supported data sources.
#[derive(Debug, Clone, Copy, PartialEq, Eq, Structural)]
pub enum DataSource {
    TheGraph,
}

/// An HTTP request, ready for the surrounding program to send: the
/// endpoint and the serialized query body.
#[derive(Debug, Clone)]
pub struct PoolRequest {
    pub url: String,
    pub body: String,
}

/// A data-source client: it decides what request fetches a pool's state.
/// Sending the request and decoding the response stay with the caller.
pub trait DataClient {
    fn pool_request(&self, subgraph_url: &str, id: &str) -> (r: PoolRequest)
        ensures
            r.url@ == subgraph_url@,
    ;
}

/// The ASCII-lowercased code point of a character.
pub open spec fn lower_code(c: char) -> int {
    if 'A' <= c && c <= 'Z' {
        c as int + 32
    } else {
        c as int
    }
}

/// Character-wise ASCII-case-insensitive equality.
pub open spec fn eq_ignore_ascii_case(a: Seq<char>, b: Seq<char>) -> bool {
    a.len() == b.len() && forall|i: int|
        0 <= i < a.len() ==> lower_code(#[trigger] a[i]) == lower_code(b[i])
}

/// Compares a string against an ASCII string, ignoring ASCII case.
pub(crate) fn eq_ignore_ascii_case_ex(a: &str, b: &str) -> (r: bool)
    requires
        b.is_ascii(),
    ensures
        r == eq_ignore_ascii_case(a@, b@),
{
    if !a.is_ascii() {
        proof {
            if eq_ignore_ascii_case(a@, b@) {
                assert forall|i: int| 0 <= i < a@.len() implies '\0' <= #[trigger] a@[i]
                    <= '\u{7f}' by {
                    assert(lower_code(a@[i]) == lower_code(b@[i]));
                    assert('\0' <= b@[i] <= '\u{7f}');
                    assert(b@[i] as int <= 127);
                    if a@[i] > '\u{7f}' {
                        assert(a@[i] as int > 127);
                        assert(a@[i] > 'Z');
                        assert(lower_code(a@[i]) == a@[i] as int);
                        if 'A' <= b@[i] && b@[i] <= 'Z' {
                            assert(b@[i] as int <= 90);
                            assert(lower_code(b@[i]) <= 122);
                        } else {
                            assert(lower_code(b@[i]) <= 127);
                        }
                        assert(false);
                    }
                }
            }
        }
        return false;
    }
    let n = a.unicode_len();
    if n != b.unicode_len() {
        return false;
    }
    let mut i: usize = 0;
    while i < n
        invariant
            a.is_ascii(),
            b.is_ascii(),
            i <= n == a@.len(),
            n == b@.len(),
            forall|j: int| 0 <= j < i ==> lower_code(#[trigger] a@[j]) == lower_code(b@[j]),
        decreases n - i,
    {
        let mut ca = a.get_ascii(i);
        let mut cb = b.get_ascii(i);
        if 65 <= ca && ca <= 90 {
            ca = ca + 32;
        }
        if 65 <= cb && cb <= 90 {
            cb = cb + 32;
        }
        if ca != cb {
            proof {
                assert(lower_code(a@[i as int]) != lower_code(b@[i as int]));
            }
            return false;
        }
        proof {
            assert(lower_code(a@[i as int]) == lower_code(b@[i as int]));
        }
        i = i + 1;
    }
    true
}

/// Exact comparison of a string against an ASCII string.
pub(crate) fn str_eq_ascii(a: &str, b: &str) -> (r: bool)
    requires
        b.is_ascii(),
    ensures
        r == (a@ == b@),
{
    if !a.is_ascii() {
        proof {
            assert(a@ != b@);
        }
        return false;
    }
    let n = a.unicode_len();
    if n != b.unicode_len() {
        proof {
            assert(a@ != b@);
        }
        return false;
    }
    let mut i: usize = 0;
    while i < n
        invariant
            a.is_ascii(),
            b.is_ascii(),
            i <= n == a@.len(),
            n == b@.len(),
            forall|j: int| 0 <= j < i ==> #[trigger] a@[j] == b@[j],
        decreases n - i,
    {
        let ca = a.get_ascii(i);
        let cb = b.get_ascii(i);
        if ca != cb {
            proof {
                assert(a@[i as int] != b@[i as int]);
            }
            return false;
        }
        proof {
            assert(a@[i as int] == b@[i as int]);
        }
        i = i + 1;
    }
    proof {
        assert(a@ =~= b@);
    }
    true
}

/// Reads a data-source tag, matched without regard to ASCII case.
pub fn parse_data_source(source: &str) -> (r: Option<DataSource>)
    ensures
        r is Some <==> eq_ignore_ascii_case(source@, "thegraph"@),
        (match r {
            Some(d) => d == DataSource::TheGraph,
            None => true,
        }),
{
    proof {
        reveal_strlit("thegraph");
    }
    if eq_ignore_ascii_case_ex(source, "thegraph") {
        Some(DataSource::TheGraph)
    } else {
        None
    }
}

impl core::str::FromStr for DataSource {
    type Err = String;

    fn from_str(s: &str) -> Result<Self, Self::Err> {
        match parse_data_source(s) {
            Some(d) => Ok(d),
            None => Err(
                <String as vstd::string::StringExecFns>::from_str("unknown data source: ").concat(
                    s,
                ),
            ),
        }
    }
}

/// The subgraph endpoint serving a chain, or `None` for an unknown chain
/// name.
pub fn get_subgraph_url(chain: &str) -> (r: Option<&'static str>)
    ensures
        (match r {
            Some(u) => (chain@ == "ethereum"@ && u@
                == "https://api.thegraph.com/subgraphs/name/uniswap/uniswap-v3"@) || (chain@
                == "polygon"@ && u@
                == "https://api.thegraph.com/subgraphs/name/ianlapham/uniswap-v3-polygon"@) || (
            chain@ == "celo"@ && u@
                == "https://api.thegraph.com/subgraphs/name/jesse-sawa/uniswap-celo"@) || (chain@
                == "optimism"@ && u@
                == "https://api.thegraph.com/subgraphs/name/ianlapham/optimism-post-regenesis"@)
                || (chain@ == "arbitrum"@ && u@
                == "https://api.thegraph.com/subgraphs/name/ianlapham/arbitrum-minimal"@) || (
            chain@ == "bnb"@ && u@
                == "https://api.thegraph.com/subgraphs/name/ianlapham/uniswap-v3-bsc"@),
            None => chain@ != "ethereum"@ && chain@ != "polygon"@ && chain@ != "celo"@ && chain@
                != "optimism"@ && chain@ != "arbitrum"@ && chain@ != "bnb"@,
        }),
{
    proof {
        reveal_strlit("ethereum");
        reveal_strlit("polygon");
        reveal_strlit("celo");
        reveal_strlit("optimism");
        reveal_strlit("arbitrum");
        reveal_strlit("bnb");
    }
    if str_eq_ascii(chain, "ethereum") {
        Some("https://api.thegraph.com/subgraphs/name/uniswap/uniswap-v3")
    } else if str_eq_ascii(chain, "polygon") {
        Some("https://api.thegraph.com/subgraphs/name/ianlapham/uniswap-v3-polygon")
    } else if str_eq_ascii(chain, "celo") {
        Some("https://api.thegraph.com/subgraphs/name/jesse-sawa/uniswap-celo")
    } else if str_eq_ascii(chain, "optimism") {
        Some("https://api.thegraph.com/subgraphs/name/ianlapham/optimism-post-regenesis")
    } else if str_eq_ascii(chain, "arbitrum") {
        Some("https://api.thegraph.com/subgraphs/name/ianlapham/arbitrum-minimal")
    } else if str_eq_ascii(chain, "bnb") {
        Some("https://api.thegraph.com/subgraphs/name/ianlapham/uniswap-v3-bsc")
    } else {
        None
    }
}

} // verus!
