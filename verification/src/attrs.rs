//! The attributes of the `op` macro: `v8`, `deferred` and `wasm`, separated by
//! optional commas.
use vstd::prelude::*;

use crate::text::same_text;

verus! {

/// One token of an attribute list, as the macro's parser sees it.
#[derive(Debug)]
pub enum AttrToken {
    /// An identifier (not a keyword).
    Ident(String),
    /// A `,`.
    Comma,
    /// Anything else.
    Other,
}

/// Which attributes are set.
#[derive(Debug, Clone, Copy, PartialEq, Eq, Structural, Default)]
pub struct Attributes {
    pub is_v8: bool,
    pub deferred: bool,
    pub is_wasm: bool,
}

/// The message for an identifier that is no attribute.
pub open spec fn invalid_attribute_text() -> Seq<char> {
    "invalid attribute, expected one of: v8, deferred, wasm"@
}

/// Reads attributes from the front of `tokens`: identifiers, each optionally
/// followed by a comma, until a token that is no identifier; an unknown
/// identifier is an error.
pub open spec fn parse_spec(tokens: Seq<AttrToken>, acc: Attributes) -> Option<Attributes>
    decreases tokens.len(),
{
    if tokens.len() == 0 {
        Some(acc)
    } else {
        match tokens[0] {
            AttrToken::Ident(name) => {
                let next = if name@ == "v8"@ {
                    Some(Attributes { is_v8: true, ..acc })
                } else if name@ == "deferred"@ {
                    Some(Attributes { deferred: true, ..acc })
                } else if name@ == "wasm"@ {
                    Some(Attributes { is_wasm: true, ..acc })
                } else {
                    None
                };
                match next {
                    None => None,
                    Some(a) => {
                        let rest = tokens.drop_first();
                        if rest.len() > 0 && rest[0] is Comma {
                            parse_spec(rest.drop_first(), a)
                        } else {
                            parse_spec(rest, a)
                        }
                    },
                }
            },
            _ => Some(acc),
        }
    }
}

impl Attributes {
    /// Parses an attribute list; `Err` carries the message for an unknown attribute.
    pub fn parse(tokens: &Vec<AttrToken>) -> (r: Result<Attributes, String>)
        ensures
            match parse_spec(tokens@, Attributes { is_v8: false, deferred: false, is_wasm: false }) {
                Some(a) => r == Ok::<Attributes, String>(a),
                None => r matches Err(m) && m@ == invalid_attribute_text(),
            },
    {
        let mut acc = Attributes { is_v8: false, deferred: false, is_wasm: false };
        let mut i: usize = 0;
        let n: usize = tokens.len();
        proof {
            assert(tokens@.skip(0) =~= tokens@);
        }
        while i < n
            invariant
                n == tokens@.len(),
                i <= n,
                parse_spec(tokens@, Attributes { is_v8: false, deferred: false, is_wasm: false })
                    == parse_spec(tokens@.skip(i as int), acc),
            decreases n - i,
        {
            let ghost t = tokens@.skip(i as int);
            proof {
                assert(t[0] == tokens@[i as int]);
                assert(t.drop_first() =~= tokens@.skip(i + 1));
            }
            match &tokens[i] {
                AttrToken::Ident(name) => {
                    if same_text(name.as_str(), "v8") {
                        acc.is_v8 = true;
                    } else if same_text(name.as_str(), "deferred") {
                        acc.deferred = true;
                    } else if same_text(name.as_str(), "wasm") {
                        acc.is_wasm = true;
                    } else {
                        return Err("invalid attribute, expected one of: v8, deferred, wasm".to_owned());
                    }
                    i = i + 1;
                    if i < n {
                        match &tokens[i] {
                            AttrToken::Comma => {
                                proof {
                                    assert(tokens@.skip(i as int)[0] == tokens@[i as int]);
                                    assert(tokens@.skip(i as int).drop_first() =~= tokens@.skip(i + 1));
                                }
                                i = i + 1;
                            },
                            _ => {
                                proof {
                                    assert(tokens@.skip(i as int)[0] == tokens@[i as int]);
                                }
                            },
                        }
                    }
                },
                _ => {
                    return Ok(acc);
                },
            }
        }
        proof {
            assert(tokens@.skip(i as int).len() == 0);
        }
        Ok(acc)
    }
}

} // verus!
