//! The Merkle-membership primitive: assembling the ordered input list
//! of the circuit gadget that decides whether a leaf lies in a Merkle
//! tree.  The driver resolves expressions to witnesses and supplies a
//! fresh witness for the output; the ordering and widths of the inputs
//! are fixed here.

use vstd::prelude::*;

verus! {

/// Index of a witness in the circuit.
#[derive(Clone, Copy, PartialEq, Eq, Structural, Debug)]
pub struct Witness(pub u32);

/// A named circuit primitive.
#[derive(Clone, Copy, PartialEq, Eq, Structural, Debug)]
pub enum Opcode {
    MerkleMembership,
}

/// One input handed to a primitive: a witness and how many bits of it
/// the primitive reads.
#[derive(Clone, Copy, PartialEq, Eq, Structural, Debug)]
pub struct GadgetInput {
    pub witness: Witness,
    pub num_bits: u32,
}

/// One call of a circuit primitive: its name, its ordered inputs, and
/// the witnesses it fills.
#[derive(PartialEq, Eq, Debug)]
pub struct GadgetCall {
    pub name: Opcode,
    pub inputs: Vec<GadgetInput>,
    pub outputs: Vec<Witness>,
}

pub struct MerkleMembershipGadget;

impl MerkleMembershipGadget {
    /// The primitive this gadget invokes.
    pub fn name() -> (r: Opcode)
        ensures
            r == Opcode::MerkleMembership,
    {
        Opcode::MerkleMembership
    }

    /// The ordered input list: the tree root, the leaf and the leaf's
    /// index come first, each read at the field's full bit width, then
    /// the hash path entries unchanged.  Every entry of the hash path
    /// must already carry the full width.
    pub fn prepare_inputs(
        root: Witness,
        leaf: Witness,
        index: Witness,
        hash_path: &Vec<GadgetInput>,
        field_bits: u32,
    ) -> (r: Vec<GadgetInput>)
        requires
            hash_path@.len() + 3 <= usize::MAX,
            forall|i: int|
                0 <= i < hash_path@.len() ==> (#[trigger] hash_path@[i]).num_bits == field_bits,
        ensures
            r@.len() == 3 + hash_path@.len(),
            r@[0] == (GadgetInput { witness: root, num_bits: field_bits }),
            r@[1] == (GadgetInput { witness: leaf, num_bits: field_bits }),
            r@[2] == (GadgetInput { witness: index, num_bits: field_bits }),
            forall|i: int| 0 <= i < hash_path@.len() ==> r@[3 + i] == hash_path@[i],
            forall|i: int| 0 <= i < r@.len() ==> (#[trigger] r@[i]).num_bits == field_bits,
    {
        let mut inputs: Vec<GadgetInput> = Vec::new();
        inputs.push(GadgetInput { witness: root, num_bits: field_bits });
        inputs.push(GadgetInput { witness: leaf, num_bits: field_bits });
        inputs.push(GadgetInput { witness: index, num_bits: field_bits });
        let mut i: usize = 0;
        while i < hash_path.len()
            invariant
                hash_path@.len() + 3 <= usize::MAX,
                i <= hash_path@.len(),
                inputs@.len() == 3 + i,
                inputs@[0] == (GadgetInput { witness: root, num_bits: field_bits }),
                inputs@[1] == (GadgetInput { witness: leaf, num_bits: field_bits }),
                inputs@[2] == (GadgetInput { witness: index, num_bits: field_bits }),
                forall|k: int| 0 <= k < i ==> inputs@[3 + k] == hash_path@[k],
                forall|k: int|
                    0 <= k < hash_path@.len() ==> (#[trigger] hash_path@[k]).num_bits == field_bits,
            decreases hash_path@.len() - i,
        {
            inputs.push(hash_path[i]);
            i = i + 1;
        }
        proof {
            assert forall|k: int| 0 <= k < inputs@.len() implies (#[trigger] inputs@[k]).num_bits
                == field_bits by {
                if k >= 3 {
                    assert(inputs@[k] == hash_path@[k - 3]);
                }
            }
        }
        inputs
    }

    /// Build the full gadget call: the assembled inputs, and one fresh
    /// witness that will hold the membership bit.
    pub fn call(
        root: Witness,
        leaf: Witness,
        index: Witness,
        hash_path: &Vec<GadgetInput>,
        field_bits: u32,
        output: Witness,
    ) -> (r: GadgetCall)
        requires
            hash_path@.len() + 3 <= usize::MAX,
            forall|i: int|
                0 <= i < hash_path@.len() ==> (#[trigger] hash_path@[i]).num_bits == field_bits,
        ensures
            r.name == Opcode::MerkleMembership,
            r.inputs@.len() == 3 + hash_path@.len(),
            r.inputs@[0] == (GadgetInput { witness: root, num_bits: field_bits }),
            r.inputs@[1] == (GadgetInput { witness: leaf, num_bits: field_bits }),
            r.inputs@[2] == (GadgetInput { witness: index, num_bits: field_bits }),
            forall|i: int| 0 <= i < hash_path@.len() ==> r.inputs@[3 + i] == hash_path@[i],
            r.outputs@ == seq![output],
    {
        let inputs = Self::prepare_inputs(root, leaf, index, hash_path, field_bits);
        let mut outputs: Vec<Witness> = Vec::new();
        outputs.push(output);
        proof {
            assert(outputs@ =~= seq![output]);
        }
        GadgetCall { name: Self::name(), inputs, outputs }
    }
}

} // verus!
