//! The questions that the interactive flow can ask, named as in configuration files.
use vstd::prelude::*;
use crate::grammar::chars_of;
use crate::text::{ascii_lower, chars_equal, to_ascii_lowercase};

verus! {

/// A question of the interactive flow.
#[derive(Debug, Clone, Copy, PartialEq, Eq, Structural)]
pub enum Prompts {
    Type,
    Scope,
    Subject,
    Body,
    IsBreaking,
    Issues,
    Footers,
}

/// The prompts, in the order in which names are matched.
pub open spec fn all_prompts() -> Seq<Prompts> {
    seq![
        Prompts::Type,
        Prompts::Scope,
        Prompts::Subject,
        Prompts::Body,
        Prompts::IsBreaking,
        Prompts::Issues,
        Prompts::Footers,
    ]
}

/// The name of each prompt in configuration files.
pub open spec fn prompt_name(p: Prompts) -> Seq<char> {
    match p {
        Prompts::Type => seq!['t', 'y', 'p', 'e'],
        Prompts::Scope => seq!['s', 'c', 'o', 'p', 'e'],
        Prompts::Subject => seq!['s', 'u', 'b', 'j', 'e', 'c', 't'],
        Prompts::Body => seq!['b', 'o', 'd', 'y'],
        Prompts::IsBreaking => seq!['i', 's', '_', 'b', 'r', 'e', 'a', 'k', 'i', 'n', 'g'],
        Prompts::Issues => seq!['i', 's', 's', 'u', 'e', 's'],
        Prompts::Footers => seq!['f', 'o', 'o', 't', 'e', 'r', 's'],
    }
}

/// The first prompt at index `i` or later named `t`; `Type` when none is.
pub open spec fn prompt_from(t: Seq<char>, i: int) -> Prompts
    decreases all_prompts().len() - i,
{
    if i < 0 || i >= all_prompts().len() {
        Prompts::Type
    } else if prompt_name(all_prompts()[i]) == t {
        all_prompts()[i]
    } else {
        prompt_from(t, i + 1)
    }
}

/// The prompt a name denotes, without regard to ASCII case; `Type` for an unknown name.
pub open spec fn prompt_of(name: Seq<char>) -> Prompts {
    prompt_from(ascii_lower(name), 0)
}

impl Prompts {
    /// The name of this prompt in configuration files.
    pub fn name(&self) -> (r: &'static str)
        ensures
            r@ == prompt_name(*self),
    {
        match self {
            Prompts::Type => {
                proof {
                    reveal_strlit("type");
                }
                assert("type"@ =~= prompt_name(*self));
                "type"
            },
            Prompts::Scope => {
                proof {
                    reveal_strlit("scope");
                }
                assert("scope"@ =~= prompt_name(*self));
                "scope"
            },
            Prompts::Subject => {
                proof {
                    reveal_strlit("subject");
                }
                assert("subject"@ =~= prompt_name(*self));
                "subject"
            },
            Prompts::Body => {
                proof {
                    reveal_strlit("body");
                }
                assert("body"@ =~= prompt_name(*self));
                "body"
            },
            Prompts::IsBreaking => {
                proof {
                    reveal_strlit("is_breaking");
                }
                assert("is_breaking"@ =~= prompt_name(*self));
                "is_breaking"
            },
            Prompts::Issues => {
                proof {
                    reveal_strlit("issues");
                }
                assert("issues"@ =~= prompt_name(*self));
                "issues"
            },
            Prompts::Footers => {
                proof {
                    reveal_strlit("footers");
                }
                assert("footers"@ =~= prompt_name(*self));
                "footers"
            },
        }
    }

    /// The prompt named `value` (see `prompt_of`).
    pub fn from_name(value: &str) -> (r: Prompts)
        ensures
            r == prompt_of(value@),
    {
        let lower = to_ascii_lowercase(value);
        let t = chars_of(lower.as_str());
        let table = [
            Prompts::Type,
            Prompts::Scope,
            Prompts::Subject,
            Prompts::Body,
            Prompts::IsBreaking,
            Prompts::Issues,
            Prompts::Footers,
        ];
        assert(table@ =~= all_prompts());
        let mut i: usize = 0;
        while i < 7
            invariant
                table@ == all_prompts(),
                t@ == ascii_lower(value@),
                i <= 7,
                prompt_from(t@, i as int) == prompt_of(value@),
            decreases 7 - i,
        {
            let k = chars_of(table[i].name());
            if chars_equal(&k, &t) {
                return table[i];
            }
            i += 1;
        }
        Prompts::Type
    }
}

impl From<&str> for Prompts {
    fn from(value: &str) -> Self {
        Prompts::from_name(value)
    }
}

impl vstd::std_specs::convert::FromSpecImpl<&str> for Prompts {
    open spec fn obeys_from_spec() -> bool {
        true
    }

    open spec fn from_spec(v: &str) -> Prompts {
        prompt_of(v@)
    }
}

} // verus!
