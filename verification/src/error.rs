//! The error channel shared by the whole library: a closed set of error
//! kinds plus a chain of human-readable context messages, innermost cause
//! first. Each enclosing operation wraps the chain with its own description,
//! so the rendered message reads outermost context first, cause last.

use vstd::prelude::*;
use vstd::string::StringExecFns;

verus! {

/// The closed set of failure categories.
#[derive(Clone, Copy, PartialEq, Eq, Structural, Debug)]
pub enum ErrorKind {
    /// Unsupported version, unknown group, resolver or plan.
    Configuration,
    /// A malformed ignore glob.
    Pattern,
    /// Expansion of a resolver string failed.
    PathResolution,
    /// A filesystem read, write or remove failed.
    Io,
    /// Creating a symlink failed.
    Symlink,
}

/// An error: its kind and the context chain, innermost cause first.
#[derive(Debug)]
pub struct Error {
    kind: ErrorKind,
    chain: Vec<String>,
}

/// The rendered message of a context chain: the outermost (last pushed)
/// message first, each level separated by `": "`, the innermost cause last.
pub open spec fn rendered_message(chain: Seq<Seq<char>>) -> Seq<char>
    decreases chain.len(),
{
    if chain.len() == 0 {
        Seq::empty()
    } else if chain.len() == 1 {
        chain[0]
    } else {
        rendered_message(chain.drop_first()) + seq![':', ' '] + chain[0]
    }
}

impl Error {
    pub closed spec fn spec_kind(&self) -> ErrorKind {
        self.kind
    }

    /// The context chain, innermost cause first.
    pub closed spec fn spec_chain(&self) -> Seq<Seq<char>> {
        self.chain.deep_view()
    }

    pub fn new(kind: ErrorKind, cause: String) -> (r: Error)
        ensures
            r.spec_kind() == kind,
            r.spec_chain() == seq![cause@],
    {
        let chain = vec![cause];
        proof {
            assert(chain.deep_view() =~= seq![chain@[0]@]);
        }
        Error { kind, chain }
    }

    /// Wraps the error with one more enclosing operation's description.
    pub fn context(self, description: String) -> (r: Error)
        ensures
            r.spec_kind() == self.spec_kind(),
            r.spec_chain() == self.spec_chain().push(description@),
    {
        let Error { kind, mut chain } = self;
        let ghost before = chain.deep_view();
        chain.push(description);
        proof {
            assert(chain.deep_view() =~= before.push(chain@.last()@));
        }
        Error { kind, chain }
    }

    pub fn kind(&self) -> (r: ErrorKind)
        ensures
            r == self.spec_kind(),
    {
        self.kind
    }

    /// The full human-readable message, outermost context first.
    pub fn message(&self) -> (r: String)
        ensures
            r@ == rendered_message(self.spec_chain()),
    {
        let mut out = String::new();
        let mut i: usize = self.chain.len();
        while i > 0
            invariant
                i <= self.chain.len(),
                out@ == rendered_message(self.spec_chain().skip(i as int)) + (
                if i > 0 && i < self.chain.len() {
                    seq![':', ' ']
                } else {
                    Seq::<char>::empty()
                }),
            decreases i,
        {
            i = i - 1;
            out.append(self.chain[i].as_str());
            proof {
                reveal_strlit(": ");
                assert(self.spec_chain().skip(i as int)[0] == self.spec_chain()[i as int]);
                assert(self.spec_chain().skip(i as int).drop_first() =~= self.spec_chain().skip(
                    i as int + 1,
                ));
                assert(out@ == rendered_message(self.spec_chain().skip(i as int)));
            }
            if i > 0 {
                out.append(": ");
            }
        }
        proof {
            assert(self.spec_chain().skip(0) =~= self.spec_chain());
        }
        out
    }
}

impl Clone for Error {
    fn clone(&self) -> (r: Self)
        ensures
            r.spec_kind() == self.spec_kind(),
            r.spec_chain() == self.spec_chain(),
    {
        let mut chain: Vec<String> = Vec::new();
        let mut i: usize = 0;
        while i < self.chain.len()
            invariant
                i <= self.chain.len(),
                chain.deep_view() =~= self.chain.deep_view().take(i as int),
            decreases self.chain.len() - i,
        {
            let ghost before = chain.deep_view();
            chain.push(self.chain[i].clone());
            proof {
                assert(chain.deep_view() =~= before.push(chain@.last()@));
                assert(chain.deep_view() =~= self.chain.deep_view().take(i as int + 1));
            }
            i = i + 1;
        }
        proof {
            assert(self.chain.deep_view().take(self.chain@.len() as int) =~= self.chain.deep_view());
        }
        Error { kind: self.kind, chain }
    }
}

} // verus!
