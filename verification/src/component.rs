//! The description of the SHA-256 gadget instance that the surrounding
//! toolchain hands to a gadget backend when it requests constraints or a
//! witness. Only this plain description is the library's concern; the gadget
//! call itself is I/O and stays outside the verified core.

use vstd::prelude::*;

verus! {

/// A gadget instance: which gadget, how its variables are numbered, and,
/// when fixed, the field order it works over.
pub struct InstanceDescription {
    pub gadget_name: String,
    pub incoming_variable_ids: Vec<u64>,
    pub outgoing_variable_ids: Option<Vec<u64>>,
    pub free_variable_id_before: u64,
    pub field_order: Option<Vec<u8>>,
}

/// The SHA-256 gadget instance: two incoming variables, one outgoing, the
/// first free variable after them, and the backend's default field order.
pub fn make_sha256_instance() -> (r: InstanceDescription)
    ensures
        r.gadget_name@ == "sha256"@,
        r.incoming_variable_ids@ == seq![1u64, 2u64],
        r.outgoing_variable_ids matches Some(out) && out@ == seq![3u64],
        r.free_variable_id_before == 4u64,
        r.field_order is None,
{
    let mut incoming: Vec<u64> = Vec::new();
    incoming.push(1);
    incoming.push(2);
    let mut outgoing: Vec<u64> = Vec::new();
    outgoing.push(3);
    proof {
        assert(incoming@ =~= seq![1u64, 2u64]);
        assert(outgoing@ =~= seq![3u64]);
    }
    InstanceDescription {
        gadget_name: "sha256".to_owned(),
        incoming_variable_ids: incoming,
        outgoing_variable_ids: Some(outgoing),
        free_variable_id_before: 4,
        field_order: None,
    }
}

} // verus!
