//! What the server answers, as a tree of plain values.

use vstd::prelude::*;

verus! {

/// One node of a reply.
#[derive(Debug, PartialEq, Eq)]
pub enum Reply {
    /// No data.
    Nil,
    /// An integer.
    Int(i64),
    /// A byte string.
    Data(Vec<u8>),
    /// A list of nodes.
    Bulk(Vec<Reply>),
    /// A status line.
    Status(String),
    /// The status `OK`.
    Okay,
    /// A node of a kind that no stream reply holds.
    Unsupported,
}

impl Reply {
    /// The bytes of a byte string; `None` for every other node.
    pub open spec fn spec_bytes(self) -> Option<Seq<u8>> {
        match self {
            Reply::Data(bytes) => Some(bytes@),
            _ => None,
        }
    }

    /// The members of a list; `None` for every other node.
    pub open spec fn spec_items(self) -> Option<Seq<Reply>> {
        match self {
            Reply::Bulk(items) => Some(items@),
            _ => None,
        }
    }

    /// The members of a list of exactly two nodes; `None` for every other
    /// node.
    pub open spec fn spec_pair(self) -> Option<(Reply, Reply)> {
        match self {
            Reply::Bulk(items) if items@.len() == 2 => Some((items@[0], items@[1])),
            _ => None,
        }
    }

    /// The byte strings that a list holds, in order; `None` for a node that
    /// is no list, and for a list with a member that is no byte string.
    pub open spec fn spec_byte_strings(self) -> Option<Seq<Seq<u8>>> {
        match self {
            Reply::Bulk(items) if forall|i: int|
                0 <= i < items@.len() ==> (#[trigger] items@[i]).spec_bytes() is Some => Some(
                Seq::new(items@.len(), |i: int| items@[i].spec_bytes().unwrap()),
            ),
            _ => None,
        }
    }

    /// A copy of the bytes of a byte string.
    pub fn bytes(&self) -> (r: Option<Vec<u8>>)
        ensures
            match r {
                Some(b) => self.spec_bytes() == Some(b@),
                None => self.spec_bytes() is None,
            },
    {
        match self {
            Reply::Data(bytes) => Some(copy_bytes(bytes)),
            _ => None,
        }
    }

    /// Copies of the byte strings that a list holds.
    #[verifier::loop_isolation(false)]
    pub fn byte_strings(&self) -> (r: Option<Vec<Vec<u8>>>)
        ensures
            match r {
                Some(v) => self.spec_byte_strings() == Some(strings_view(v@)),
                None => self.spec_byte_strings() is None,
            },
    {
        match self {
            Reply::Bulk(items) => {
                let mut out: Vec<Vec<u8>> = Vec::new();
                let mut i: usize = 0;
                while i < items.len()
                    invariant
                        0 <= i <= items@.len(),
                        out@.len() == i,
                        forall|j: int|
                            0 <= j < i ==> (#[trigger] items@[j]).spec_bytes() == Some(
                                out@[j]@,
                            ),
                    decreases items@.len() - i,
                {
                    match items[i].bytes() {
                        Some(b) => {
                            out.push(b);
                        },
                        None => {
                            assert(items@[i as int].spec_bytes() is None);
                            return None;
                        },
                    }
                    i = i + 1;
                }
                assert(strings_view(out@) =~= Seq::new(
                    items@.len(),
                    |i: int| items@[i].spec_bytes().unwrap(),
                ));
                Some(out)
            },
            _ => None,
        }
    }
}

/// The models of byte strings, in order.
pub open spec fn strings_view(v: Seq<Vec<u8>>) -> Seq<Seq<u8>> {
    v.map_values(|b: Vec<u8>| b@)
}

/// A copy of `bytes`.
pub fn copy_bytes(bytes: &Vec<u8>) -> (out: Vec<u8>)
    ensures
        out@ == bytes@,
{
    let out = bytes.clone();
    assert(out@ =~= bytes@);
    out
}

} // verus!
