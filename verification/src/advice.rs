//! Requests for nondeterministic hints.
//!
//! An injector names the data that the advice provider is to make available
//! before the next operation runs. It carries no values itself: it fixes the
//! shape of the operand stack it reads and of what it leaves on the advice
//! stack, in the advice map or in the Merkle store.
use vstd::prelude::*;
use vstd::string::StringExecFns;
use crate::felt::Felt;

verus! {

/// The signature schemes for which signature data can be requested.
#[derive(Clone, Copy, Debug, PartialEq, Eq, Structural)]
pub enum SignatureKind {
    /// Falcon signatures over the RPO hash, with degree 512.
    RpoFalcon512,
}

/// An action of the advice provider that an instruction can ask for.
///
/// The provider has three parts: the advice stack, from which the machine
/// pops values; the advice map, which holds lists of elements under keys of
/// one word; and the Merkle store, which holds trees by their roots. An
/// injector reads the operand stack, never changes it, and adds to one of
/// the three parts.
///
/// In the descriptions the top of a stack is written first, and a name in
/// capitals stands for a word of four elements.
#[derive(Clone, Copy, Debug, PartialEq, Eq, Structural)]
pub enum AdviceInjector {
    // INTO THE MERKLE STORE
    // --------------------------------------------------------------------------------------------
    /// Joins two trees of the Merkle store under a new root.
    ///
    /// - Operand stack: `[RIGHT_ROOT, LEFT_ROOT, ...]`.
    /// - Merkle store before: holds the trees of both roots.
    /// - Merkle store after: holds, besides these, the tree whose root is
    ///   the hash of `LEFT_ROOT` and `RIGHT_ROOT`.
    MerkleNodeMerge,

    // ONTO THE ADVICE STACK
    // --------------------------------------------------------------------------------------------
    /// Reads a node of a tree of the Merkle store.
    ///
    /// - Operand stack: `[depth, index, TREE_ROOT, ...]`.
    /// - Advice stack after: `[NODE, ...]`, the node at that depth and index
    ///   of the tree with that root.
    MerkleNodeToStack,

    /// Replaces a node of a tree of the Merkle store.
    ///
    /// - Operand stack: `[OLD_NODE, depth, index, OLD_ROOT, NEW_NODE, ...]`.
    /// - Merkle store after: holds the path from the new node to the new
    ///   root; the path is also handed to the caller.
    UpdateMerkleNode,

    /// Looks up a list of elements in the advice map.
    ///
    /// - Operand stack: `[..., KEY, ...]`, the key being the word that
    ///   begins `key_offset` elements below the top; the offsets 0 to 12 are
    ///   valid.
    /// - Advice map: holds `values` under `KEY`.
    /// - Advice stack after: `[values, ...]` or, if `include_len` is set,
    ///   `[number of values, values, ...]`.
    MapValueToStack { include_len: bool, key_offset: usize },

    /// Divides one 64-bit value by another.
    ///
    /// - Operand stack: `[b1, b0, a1, a0, ...]`, the high and low 32-bit
    ///   limbs of the divisor `b` on top of those of the dividend `a`.
    /// - Advice stack after: `[q0, q1, r0, r1, ...]`, the low and high limbs
    ///   of the quotient and of the remainder.
    DivU64,

    /// Inverts an element of the quadratic extension field.
    ///
    /// - Operand stack: `[a1, a0, ...]`.
    /// - Advice stack after: `[b0, b1, ...]`, the inverse of `(a0, a1)`.
    Ext2Inv,

    /// Interpolates a polynomial from its evaluations over a domain whose
    /// size is a power of two.
    ///
    /// - Operand stack: `[output_size, input_size, input_start_ptr, ...]`:
    ///   the number of coefficients asked for, which is at most the number
    ///   of evaluations; the number of evaluations, a power of two above
    ///   one; and the address of the first evaluation in memory. An
    ///   evaluation and a coefficient are two elements each.
    /// - Advice stack after: `[coefficients, ...]`, those of the lowest
    ///   degree first.
    Ext2Intt,

    /// Prepares the retrieval of a value from a tiered sparse Merkle tree,
    /// whose leaves lie at the depths 16, 32, 48 and 64.
    ///
    /// - Operand stack: `[KEY, ROOT, ...]`.
    /// - Advice stack after: `[f0, f1, K, V, f2]`: `f0` is one for the
    ///   depths 16 and 48, `f1` is one for the depths 16 and 32, `K` is what
    ///   remains of the key and `V` the value, both zero if the tree holds
    ///   nothing under the key, and `f2` is one if `K` is not zero.
    SmtGet,

    /// Prepares the insertion of a value into a tiered sparse Merkle tree.
    ///
    /// - Operand stack: `[VALUE, KEY, ROOT, ...]`.
    /// - Advice stack after, by the kind of insertion:
    ///   - an existing leaf gets a new value:
    ///     `[0, d0, d1, 1, OLD_VALUE]`;
    ///   - a leaf is added at depth 16: `[d0, d1, 1, 0]`;
    ///   - a leaf is added at depth 32 or 48: `[d0, d1, 1, 0, P_NODE]`;
    ///   - a leaf is added where another leaf has to move down:
    ///     `[f0, f1, 0, 0, E_KEY, E_VALUE]`;
    ///   - a key is deleted where the tree is empty: `[d0, d1, 0, 1]`;
    ///   - a key is deleted where another leaf lies:
    ///     `[d0, d1, 1, 1, KEY, VALUE]`;
    ///   - a key is deleted with its own leaf:
    ///     `[0, 0, 0, 0, NEW_ROOT, OLD_VALUE]`.
    ///
    /// Here `d0` is one for the depths 16 and 48 and `d1` for the depths 16
    /// and 32; `P_NODE` is the inner node one tier above the new leaf;
    /// `E_KEY` and `E_VALUE` are key and value of the leaf that moves; and
    /// `(f0, f1)` says from which tier to which it moves: `(0, 0)` from 16
    /// to 32, `(0, 1)` from 16 to 48, `(1, 0)` from 32 to 48, and `(1, 1)`
    /// from any to 64.
    SmtSet,

    /// Reads a value of a tiered sparse Merkle tree without proof.
    ///
    /// - Operand stack: `[KEY, ROOT, ...]`.
    /// - Advice stack after: `[VALUE, ...]`, the value under the key, which
    ///   is the zero word if there is none.
    SmtPeek,

    /// Counts the leading zeros of a 32-bit value.
    ///
    /// - Operand stack: `[n, ...]`.
    /// - Advice stack after: `[leading_zeros, ...]`.
    Clz,

    /// Counts the trailing zeros of a 32-bit value.
    ///
    /// - Operand stack: `[n, ...]`.
    /// - Advice stack after: `[trailing_zeros, ...]`.
    Ctz,

    /// Counts the leading ones of a 32-bit value.
    ///
    /// - Operand stack: `[n, ...]`.
    /// - Advice stack after: `[leading_ones, ...]`.
    Clo,

    /// Counts the trailing ones of a 32-bit value.
    ///
    /// - Operand stack: `[n, ...]`.
    /// - Advice stack after: `[trailing_ones, ...]`.
    Cto,

    /// Takes the logarithm to the base two, rounded down.
    ///
    /// - Operand stack: `[n, ...]`.
    /// - Advice stack after: `[ilog2(n), ...]`.
    ILog2,

    // INTO THE ADVICE MAP
    // --------------------------------------------------------------------------------------------
    /// Stores a range of memory under a key.
    ///
    /// - Operand stack: `[KEY, start_addr, end_addr, ...]`.
    /// - Advice map after: holds under `KEY` the elements of the memory from
    ///   `start_addr` up to `end_addr`.
    MemToMap,

    /// Stores two words under their hash in a domain.
    ///
    /// - Operand stack: `[B, A, ...]`.
    /// - Advice map after: holds the eight elements of `A` and `B` under the
    ///   hash of `A` and `B` in the domain `domain`.
    HdwordToMap { domain: Felt },

    /// Stores two words under a key that a permutation of three words
    /// yields.
    ///
    /// - Operand stack: `[B, A, C, ...]`.
    /// - Advice map after: holds the eight elements of `A` and `B` under the
    ///   digest of the permutation of `C`, `A` and `B`.
    HpermToMap,

    /// Fetches what the verification of a signature needs.
    ///
    /// - Operand stack: `[PK, MSG, ...]`, the public key and the message.
    /// - Advice stack after: `[SIG_DATA]`, the data of the signature in the
    ///   scheme `kind`.
    SigToStack { kind: SignatureKind },
}

/// The decimal digit for `d`, which is below ten.
pub open spec fn digit_char(d: nat) -> char {
    if d == 0 {
        '0'
    } else if d == 1 {
        '1'
    } else if d == 2 {
        '2'
    } else if d == 3 {
        '3'
    } else if d == 4 {
        '4'
    } else if d == 5 {
        '5'
    } else if d == 6 {
        '6'
    } else if d == 7 {
        '7'
    } else if d == 8 {
        '8'
    } else {
        '9'
    }
}

/// The decimal numeral of `n`, without sign and without leading zeros.
pub open spec fn decimal(n: nat) -> Seq<char>
    decreases n,
{
    if n < 10 {
        seq![digit_char(n)]
    } else {
        decimal(n / 10).push(digit_char(n % 10))
    }
}

/// The decimal numeral of `value`, as the `Display` of `u64` writes it.
#[verifier::external_body]
fn decimal_string(value: u64) -> (s: String)
    ensures
        s@ == decimal(value as nat),
{
    format!("{}", value)
}

impl SignatureKind {
    /// The name of the scheme.
    pub open spec fn name(self) -> Seq<char> {
        match self {
            SignatureKind::RpoFalcon512 => "rpo_falcon512"@,
        }
    }

    /// The name of the scheme as a string.
    pub fn to_string(&self) -> (s: String)
        ensures
            s@ == self.name(),
    {
        match self {
            SignatureKind::RpoFalcon512 => String::from_str("rpo_falcon512"),
        }
    }
}

impl AdviceInjector {
    /// The textual form of the injector: its name in lower-case snake case,
    /// followed for an injector with a parameter by a dot and the parameter.
    pub open spec fn name(self) -> Seq<char> {
        match self {
            AdviceInjector::MerkleNodeMerge => "merkle_node_merge"@,
            AdviceInjector::MerkleNodeToStack => "merkle_node_to_stack"@,
            AdviceInjector::UpdateMerkleNode => "update_merkle_node"@,
            AdviceInjector::MapValueToStack { include_len, key_offset } => if include_len {
                "map_value_to_stack_with_len."@ + decimal(key_offset as nat)
            } else {
                "map_value_to_stack."@ + decimal(key_offset as nat)
            },
            AdviceInjector::DivU64 => "div_u64"@,
            AdviceInjector::Ext2Inv => "ext2_inv"@,
            AdviceInjector::Ext2Intt => "ext2_intt"@,
            AdviceInjector::SmtGet => "smt_get"@,
            AdviceInjector::SmtSet => "smt_set"@,
            AdviceInjector::SmtPeek => "smt_peek"@,
            AdviceInjector::Clz => "u32clz"@,
            AdviceInjector::Ctz => "u32ctz"@,
            AdviceInjector::Clo => "u32clo"@,
            AdviceInjector::Cto => "u32cto"@,
            AdviceInjector::ILog2 => "ilog2"@,
            AdviceInjector::MemToMap => "mem_to_map"@,
            AdviceInjector::HdwordToMap { domain } => "hdword_to_map."@ + decimal(
                domain.as_int() as nat,
            ),
            AdviceInjector::HpermToMap => "hperm_to_map"@,
            AdviceInjector::SigToStack { kind } => "sig_to_stack."@ + kind.name(),
        }
    }

    /// The textual form of the injector as a string.
    pub fn to_string(&self) -> (s: String)
        ensures
            s@ == self.name(),
    {
        match self {
            AdviceInjector::MerkleNodeMerge => String::from_str("merkle_node_merge"),
            AdviceInjector::MerkleNodeToStack => String::from_str("merkle_node_to_stack"),
            AdviceInjector::UpdateMerkleNode => String::from_str("update_merkle_node"),
            AdviceInjector::MapValueToStack { include_len, key_offset } => {
                let digits = decimal_string(*key_offset as u64);
                if *include_len {
                    String::from_str("map_value_to_stack_with_len.").concat(digits.as_str())
                } else {
                    String::from_str("map_value_to_stack.").concat(digits.as_str())
                }
            },
            AdviceInjector::DivU64 => String::from_str("div_u64"),
            AdviceInjector::Ext2Inv => String::from_str("ext2_inv"),
            AdviceInjector::Ext2Intt => String::from_str("ext2_intt"),
            AdviceInjector::SmtGet => String::from_str("smt_get"),
            AdviceInjector::SmtSet => String::from_str("smt_set"),
            AdviceInjector::SmtPeek => String::from_str("smt_peek"),
            AdviceInjector::Clz => String::from_str("u32clz"),
            AdviceInjector::Ctz => String::from_str("u32ctz"),
            AdviceInjector::Clo => String::from_str("u32clo"),
            AdviceInjector::Cto => String::from_str("u32cto"),
            AdviceInjector::ILog2 => String::from_str("ilog2"),
            AdviceInjector::MemToMap => String::from_str("mem_to_map"),
            AdviceInjector::HdwordToMap { domain } => {
                let digits = decimal_string(domain.as_int());
                String::from_str("hdword_to_map.").concat(digits.as_str())
            },
            AdviceInjector::HpermToMap => String::from_str("hperm_to_map"),
            AdviceInjector::SigToStack { kind } => {
                let scheme = kind.to_string();
                String::from_str("sig_to_stack.").concat(scheme.as_str())
            },
        }
    }
}

} // verus!
