//! When a syntax tree is well formed: every handle in it points into the
//! interner that travels with it, and every field has a type.

use crate::parser::{
    EnumView, Field, FieldType, MessageView, ParseTree, ParseTreeView, Rpc, ServiceView,
};
use crate::intern::{StringId, StringIntern};
use std::borrow::Cow;
use vstd::prelude::*;

verus! {

/// The name that a field type refers to, if it is a reference.
pub open spec fn referenced(t: FieldType) -> Option<usize> {
    match t {
        FieldType::Message(id) => Some(id),
        FieldType::Enum(id) => Some(id),
        _ => None,
    }
}

/// The field's handles lie below `n`, and it has a type.
pub open spec fn field_ok(f: Field, n: int) -> bool {
    &&& f.name < n
    &&& !(f.ftype is Undef)
    &&& referenced(f.ftype) matches Some(id) ==> id < n
}

/// The enum's handles lie below `n`.
pub open spec fn enum_ok(e: EnumView, n: int) -> bool {
    &&& e.name < n
    &&& forall|i: int| 0 <= i < e.variants.len() ==> (#[trigger] e.variants[i]).name < n
}

/// The handles of the message and of all that is nested in it lie below
/// `n`, and every field has a type.
pub open spec fn message_ok(m: MessageView, n: int) -> bool
    decreases m,
{
    &&& m.name < n
    &&& forall|i: int| 0 <= i < m.fields.len() ==> field_ok(#[trigger] m.fields[i], n)
    &&& forall|i: int| 0 <= i < m.messages.len() ==> message_ok(#[trigger] m.messages[i], n)
    &&& forall|i: int| 0 <= i < m.enums.len() ==> enum_ok(#[trigger] m.enums[i], n)
}

/// The rpc's handles lie below `n`.
pub open spec fn rpc_ok(r: Rpc, n: int) -> bool {
    r.name < n && r.arg_type < n && r.ret_type < n
}

/// The handles of the service and of its rpcs lie below `n`.
pub open spec fn service_ok(s: ServiceView, n: int) -> bool {
    &&& s.name < n
    &&& forall|i: int| 0 <= i < s.rpcs.len() ==> rpc_ok(#[trigger] s.rpcs[i], n)
}

impl ParseTreeView {
    /// The table holds no text twice, and every handle of the tree points
    /// into it.
    pub open spec fn wf(self) -> bool {
        &&& self.strings.no_duplicates()
        &&& forall|i: int|
            0 <= i < self.messages.len() ==> message_ok(
                #[trigger] self.messages[i],
                self.strings.len() as int,
            )
        &&& forall|i: int|
            0 <= i < self.enums.len() ==> enum_ok(
                #[trigger] self.enums[i],
                self.strings.len() as int,
            )
        &&& forall|i: int|
            0 <= i < self.services.len() ==> service_ok(
                #[trigger] self.services[i],
                self.strings.len() as int,
            )
    }
}

impl Default for ParseTree {
    /// A tree without declarations, with an empty interner.
    fn default() -> (res: Self)
        ensures
            res.wf(),
            res@.messages.len() == 0,
            res@.enums.len() == 0,
            res@.services.len() == 0,
            res@.strings.len() == 0,
    {
        let res = ParseTree {
            messages: Vec::new(),
            enums: Vec::new(),
            services: Vec::new(),
            intern: StringIntern::new(),
        };
        proof {
            crate::parser::lemma_messages_view(res.messages@);
        }
        res
    }
}

impl ParseTree {
    /// The tree and its interner fit together.
    pub open spec fn wf(&self) -> bool {
        self.intern.wf() && self@.wf()
    }

    /// The text behind a handle of this tree.
    pub fn get_str(&self, id: StringId) -> (text: Cow<'_, String>)
        requires
            id < self@.strings.len(),
        ensures
            text@ == self@.strings[id as int],
    {
        match self.intern.get_str(id) {
            Some(text) => text,
            None => Cow::Owned(String::new()),
        }
    }
}

/// A field that fits a table fits every longer one.
pub proof fn lemma_field_ok_grows(f: Field, n: int, later: int)
    requires
        field_ok(f, n),
        n <= later,
    ensures
        field_ok(f, later),
{
}

/// A message that fits a table fits every longer one.
pub proof fn lemma_message_ok_grows(m: MessageView, n: int, later: int)
    requires
        message_ok(m, n),
        n <= later,
    ensures
        message_ok(m, later),
    decreases m,
{
    assert forall|i: int| 0 <= i < m.messages.len() implies message_ok(
        #[trigger] m.messages[i],
        later,
    ) by {
        lemma_message_ok_grows(m.messages[i], n, later);
    }
    assert forall|i: int| 0 <= i < m.fields.len() implies field_ok(#[trigger] m.fields[i], later) by {
        lemma_field_ok_grows(m.fields[i], n, later);
    }
    assert forall|i: int| 0 <= i < m.enums.len() implies enum_ok(#[trigger] m.enums[i], later) by {
        assert(enum_ok(m.enums[i], n));
    }
}

/// A service that fits a table fits every longer one.
pub proof fn lemma_service_ok_grows(s: ServiceView, n: int, later: int)
    requires
        service_ok(s, n),
        n <= later,
    ensures
        service_ok(s, later),
{
    assert forall|i: int| 0 <= i < s.rpcs.len() implies rpc_ok(#[trigger] s.rpcs[i], later) by {
        assert(rpc_ok(s.rpcs[i], n));
    }
}

} // verus!
