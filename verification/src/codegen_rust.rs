//! The Rust backend: a struct for each message, an enum for each enum, and
//! a stub function for each rpc. A declaration nested in a message is
//! emitted before the message, so every declaration appears once and
//! complete before its container.

use crate::casing::{case_converted, to_case, NameCase};
use crate::decimal::{decimal_text, push_decimal};
use crate::parser::FieldType;
use crate::serializable_tree::{
    enums_count, enums_view, fields_view, is_scalar, lemma_messages_view, message_count,
    messages_count, messages_view, nested_enums_count, rpcs_count, scalar_of, scalar_of_canonical,
    services_view, Enum, EnumVariantView, EnumView, Field, FieldView, Message, MessageView,
    RpcView, SerializeTree, SerializeTreeView, Service, ServiceView,
};
use crate::text::{concat, lemma_concat_add, lemma_concat_one};
use vstd::prelude::*;

verus! {

/// The Rust backend.
pub struct RustCodeGen {}

/// The Rust name of a scalar type.
pub open spec fn scalar_rust_name(ft: FieldType) -> Seq<char> {
    match ft {
        FieldType::Int32 => "i32"@,
        FieldType::Int64 => "i64"@,
        FieldType::Uint32 => "u32"@,
        FieldType::Uint64 => "u64"@,
        _ => "&[u8]"@,
    }
}

/// The Rust name of a scalar type.
pub fn field_type_to_rust_str(ft: &FieldType) -> (name: &'static str)
    requires
        is_scalar(*ft),
    ensures
        name@ == scalar_rust_name(*ft),
{
    match ft {
        FieldType::Int32 => "i32",
        FieldType::Int64 => "i64",
        FieldType::Uint32 => "u32",
        FieldType::Uint64 => "u64",
        _ => "&[u8]",
    }
}

/// The Rust type of a field: the backend's own name for a scalar, and the
/// referenced declaration's name in type casing otherwise.
pub open spec fn rust_type(canonical: Seq<char>) -> Seq<char> {
    match scalar_of(canonical) {
        Some(ft) => scalar_rust_name(ft),
        None => case_converted(canonical, NameCase::UpperCamel),
    }
}

/// `pub <name>: <ty>,`
pub open spec fn field_line(name: Seq<char>, ty: Seq<char>) -> Seq<char> {
    "pub "@ + name + ": "@ + ty + ",\n"@
}

/// `pub struct <name> {`
pub open spec fn struct_open(name: Seq<char>) -> Seq<char> {
    "pub struct "@ + name + " {\n"@
}

/// `pub enum <name> {`
pub open spec fn enum_open(name: Seq<char>) -> Seq<char> {
    "pub enum "@ + name + " {\n"@
}

/// `<name> = <id>,`
pub open spec fn variant_line(name: Seq<char>, id: u32) -> Seq<char> {
    name + " = "@ + decimal_text(id as nat) + ",\n"@
}

/// The closing brace of a declaration.
pub open spec fn block_close() -> Seq<char> {
    "}\n"@
}

/// A function that takes the argument type and nominally returns the
/// return type; its body says that no transport is wired to it yet.
pub open spec fn stub(name: Seq<char>, arg: Seq<char>, ret: Seq<char>) -> Seq<char> {
    "pub fn "@ + name + "(arg: "@ + arg + ") -> "@ + ret
        + " {\nunimplemented!(\"not yet wired to a transport\")\n}\n"@
}

/// The member of a struct for one field.
pub open spec fn field_text(f: FieldView) -> Seq<char> {
    field_line(case_converted(f.name, NameCase::Snake), rust_type(f.ftype))
}

/// The members for the fields of a list, in the order of the list.
pub open spec fn fields_text(fields: Seq<FieldView>) -> Seq<char>
    decreases fields.len(),
{
    if fields.len() == 0 {
        Seq::empty()
    } else {
        fields_text(fields.drop_last()) + field_text(fields.last())
    }
}

/// The struct for a message, without what is nested in it.
pub open spec fn struct_text(m: MessageView) -> Seq<char> {
    struct_open(case_converted(m.name, NameCase::UpperCamel)) + fields_text(m.fields)
        + block_close()
}

/// The line for one variant.
pub open spec fn variant_text(v: EnumVariantView) -> Seq<char> {
    variant_line(case_converted(v.name, NameCase::UpperCamel), v.id)
}

/// The lines for the variants of a list, in the order of the list.
pub open spec fn variants_text(variants: Seq<EnumVariantView>) -> Seq<char>
    decreases variants.len(),
{
    if variants.len() == 0 {
        Seq::empty()
    } else {
        variants_text(variants.drop_last()) + variant_text(variants.last())
    }
}

/// The enum for an enum, each variant with its declared number.
pub open spec fn enum_text(e: EnumView) -> Seq<char> {
    enum_open(case_converted(e.name, NameCase::UpperCamel)) + variants_text(e.variants)
        + block_close()
}

/// The declarations for the enums of a list, in the order of the list.
pub open spec fn enums_text(enums: Seq<EnumView>) -> Seq<char>
    decreases enums.len(),
{
    if enums.len() == 0 {
        Seq::empty()
    } else {
        enums_text(enums.drop_last()) + enum_text(enums.last())
    }
}

/// The declarations for the messages of a list, in the order of the list.
pub open spec fn messages_text(ms: Seq<MessageView>) -> Seq<char>
    decreases ms, 0int,
{
    if ms.len() == 0 {
        Seq::empty()
    } else {
        messages_text(ms.drop_last()) + message_text(ms.last())
    }
}

/// The declarations for a message: its nested messages, its nested enums,
/// then its own struct.
pub open spec fn message_text(m: MessageView) -> Seq<char>
    decreases m, 1int,
{
    messages_text(m.messages) + enums_text(m.enums) + struct_text(m)
}

/// The stub for one rpc.
pub open spec fn stub_text(r: RpcView) -> Seq<char> {
    stub(
        case_converted(r.name, NameCase::Snake),
        case_converted(r.arg_type, NameCase::UpperCamel),
        case_converted(r.ret_type, NameCase::UpperCamel),
    )
}

/// The stubs for the rpcs of a list, in the order of the list.
pub open spec fn stubs_text(rpcs: Seq<RpcView>) -> Seq<char>
    decreases rpcs.len(),
{
    if rpcs.len() == 0 {
        Seq::empty()
    } else {
        stubs_text(rpcs.drop_last()) + stub_text(rpcs.last())
    }
}

/// The stubs of a service: one for each rpc.
pub open spec fn service_text(s: ServiceView) -> Seq<char> {
    stubs_text(s.rpcs)
}

/// The text for the services of a list, in the order of the list.
pub open spec fn services_text(services: Seq<ServiceView>) -> Seq<char>
    decreases services.len(),
{
    if services.len() == 0 {
        Seq::empty()
    } else {
        services_text(services.drop_last()) + service_text(services.last())
    }
}

/// The generated text for a tree: the messages, the top-level enums, the
/// services.
pub open spec fn file_text(tree: SerializeTreeView) -> Seq<char> {
    messages_text(tree.messages) + enums_text(tree.enums) + services_text(tree.services)
}

/// Appends a struct member for a field whose name and type are cased
/// already.
pub fn emit_field(out: &mut String, name: &str, ty: &str)
    ensures
        final(out)@ == old(out)@ + field_line(name@, ty@),
{
    out.push_str("pub ");
    out.push_str(name);
    out.push_str(": ");
    out.push_str(ty);
    out.push_str(",\n");
    assert(out@ =~= old(out)@ + field_line(name@, ty@));
}

/// Appends the opening line of a struct whose name is cased already.
pub fn emit_struct_open(out: &mut String, name: &str)
    ensures
        final(out)@ == old(out)@ + struct_open(name@),
{
    out.push_str("pub struct ");
    out.push_str(name);
    out.push_str(" {\n");
    assert(out@ =~= old(out)@ + struct_open(name@));
}

/// Appends the opening line of an enum whose name is cased already.
pub fn emit_enum_open(out: &mut String, name: &str)
    ensures
        final(out)@ == old(out)@ + enum_open(name@),
{
    out.push_str("pub enum ");
    out.push_str(name);
    out.push_str(" {\n");
    assert(out@ =~= old(out)@ + enum_open(name@));
}

/// Appends an enum variant whose name is cased already.
pub fn emit_variant(out: &mut String, name: &str, id: u32)
    ensures
        final(out)@ == old(out)@ + variant_line(name@, id),
{
    out.push_str(name);
    out.push_str(" = ");
    push_decimal(out, id);
    out.push_str(",\n");
    assert(out@ =~= old(out)@ + variant_line(name@, id));
}

/// Appends the stub of an rpc whose name and types are cased already.
pub fn emit_stub(out: &mut String, name: &str, arg: &str, ret: &str)
    ensures
        final(out)@ == old(out)@ + stub(name@, arg@, ret@),
{
    out.push_str("pub fn ");
    out.push_str(name);
    out.push_str("(arg: ");
    out.push_str(arg);
    out.push_str(") -> ");
    out.push_str(ret);
    out.push_str(" {\nunimplemented!(\"not yet wired to a transport\")\n}\n");
    assert(out@ =~= old(out)@ + stub(name@, arg@, ret@));
}

/// The Rust type for a canonical type name.
pub fn rust_type_name(canonical: &str) -> (ty: String)
    ensures
        ty@ == rust_type(canonical@),
{
    match scalar_of_canonical(canonical) {
        Some(ft) => field_type_to_rust_str(&ft).to_owned(),
        None => to_case(canonical, NameCase::UpperCamel),
    }
}

impl RustCodeGen {
    fn gen_fields(out: &mut String, fields: &Vec<Field>)
        ensures
            final(out)@ == old(out)@ + fields_text(fields_view(fields@)),
    {
        let ghost views = fields_view(fields@);
        let mut i: usize = 0;
        while i < fields.len()
            invariant
                0 <= i <= fields@.len(),
                views == fields_view(fields@),
                out@ == old(out)@ + fields_text(views.take(i as int)),
            decreases fields@.len() - i,
        {
            let field = &fields[i];
            let name = to_case(field.name.as_str(), NameCase::Snake);
            let ty = rust_type_name(field.ftype.as_str());
            emit_field(out, name.as_str(), ty.as_str());
            proof {
                let next = views.take(i + 1);
                assert(next.drop_last() =~= views.take(i as int));
                assert(next.last() == field@);
                assert(out@ =~= old(out)@ + fields_text(next));
            }
            i = i + 1;
        }
        assert(views.take(fields@.len() as int) =~= views);
    }

    fn gen_struct(out: &mut String, message: &Message)
        ensures
            final(out)@ == old(out)@ + struct_text(message@),
    {
        let name = to_case(message.name.as_str(), NameCase::UpperCamel);
        emit_struct_open(out, name.as_str());
        Self::gen_fields(out, &message.fields);
        out.push_str("}\n");
        assert(out@ =~= old(out)@ + struct_text(message@));
    }

    fn gen_enum(out: &mut String, enum_: &Enum)
        ensures
            final(out)@ == old(out)@ + enum_text(enum_@),
    {
        let name = to_case(enum_.name.as_str(), NameCase::UpperCamel);
        emit_enum_open(out, name.as_str());
        let ghost opened = out@;
        let ghost views = enum_@.variants;
        let mut i: usize = 0;
        while i < enum_.variants.len()
            invariant
                0 <= i <= enum_.variants@.len(),
                views == enum_@.variants,
                out@ == opened + variants_text(views.take(i as int)),
            decreases enum_.variants@.len() - i,
        {
            let var = &enum_.variants[i];
            let name = to_case(var.name.as_str(), NameCase::UpperCamel);
            emit_variant(out, name.as_str(), var.id);
            proof {
                let next = views.take(i + 1);
                assert(next.drop_last() =~= views.take(i as int));
                assert(next.last() == var@);
                assert(out@ =~= opened + variants_text(next));
            }
            i = i + 1;
        }
        assert(views.take(enum_.variants@.len() as int) =~= views);
        out.push_str("}\n");
        assert(out@ =~= old(out)@ + enum_text(enum_@));
    }

    fn gen_enums(out: &mut String, enums: &Vec<Enum>)
        ensures
            final(out)@ == old(out)@ + enums_text(enums_view(enums@)),
    {
        let ghost views = enums_view(enums@);
        let mut i: usize = 0;
        while i < enums.len()
            invariant
                0 <= i <= enums@.len(),
                views == enums_view(enums@),
                out@ == old(out)@ + enums_text(views.take(i as int)),
            decreases enums@.len() - i,
        {
            Self::gen_enum(out, &enums[i]);
            proof {
                let next = views.take(i + 1);
                assert(next.drop_last() =~= views.take(i as int));
                assert(next.last() == enums@[i as int]@);
                assert(out@ =~= old(out)@ + enums_text(next));
            }
            i = i + 1;
        }
        assert(views.take(enums@.len() as int) =~= views);
    }

    fn gen_message(out: &mut String, message: &Message)
        ensures
            final(out)@ == old(out)@ + message_text(message@),
        decreases message,
    {
        Self::gen_messages(out, &message.messages);
        Self::gen_enums(out, &message.enums);
        Self::gen_struct(out, message);
        assert(out@ =~= old(out)@ + message_text(message@));
    }

    /// Appends the declarations for the messages of a list.
    fn gen_messages(out: &mut String, messages: &Vec<Message>)
        ensures
            final(out)@ == old(out)@ + messages_text(messages_view(messages@)),
        decreases messages,
    {
        let ghost views = messages_view(messages@);
        proof {
            lemma_messages_view(messages@);
        }
        let mut i: usize = 0;
        while i < messages.len()
            invariant
                0 <= i <= messages@.len(),
                views == messages_view(messages@),
                views.len() == messages@.len(),
                forall|k: int| 0 <= k < messages@.len() ==> #[trigger] views[k] == messages@[k]@,
                out@ == old(out)@ + messages_text(views.take(i as int)),
            decreases messages@.len() - i,
        {
            Self::gen_message(out, &messages[i]);
            proof {
                let next = views.take(i + 1);
                assert(next.drop_last() =~= views.take(i as int));
                assert(next.last() == messages@[i as int]@);
                assert(out@ =~= old(out)@ + messages_text(next));
            }
            i = i + 1;
        }
        assert(views.take(messages@.len() as int) =~= views);
    }

    /// Appends the stubs through which the rpcs of a service are called.
    fn gen_service_callers(out: &mut String, service: &Service)
        ensures
            final(out)@ == old(out)@ + service_text(service@),
    {
        let ghost views = service@.rpcs;
        let mut i: usize = 0;
        while i < service.rpcs.len()
            invariant
                0 <= i <= service.rpcs@.len(),
                views == service@.rpcs,
                out@ == old(out)@ + stubs_text(views.take(i as int)),
            decreases service.rpcs@.len() - i,
        {
            let rpc = &service.rpcs[i];
            let name = to_case(rpc.name.as_str(), NameCase::Snake);
            let arg = to_case(rpc.arg_type.as_str(), NameCase::UpperCamel);
            let ret = to_case(rpc.ret_type.as_str(), NameCase::UpperCamel);
            emit_stub(out, name.as_str(), arg.as_str(), ret.as_str());
            proof {
                let next = views.take(i + 1);
                assert(next.drop_last() =~= views.take(i as int));
                assert(next.last() == rpc@);
                assert(out@ =~= old(out)@ + stubs_text(next));
            }
            i = i + 1;
        }
        assert(views.take(service.rpcs@.len() as int) =~= views);
    }

    /// Generates the Rust text for a lowered tree.
    pub fn gen(serial: &SerializeTree) -> (out: String)
        ensures
            out@ == file_text(serial@),
    {
        let mut out = String::new();
        Self::gen_messages(&mut out, &serial.messages);
        Self::gen_enums(&mut out, &serial.enums);
        let ghost declared = out@;
        let ghost views = services_view(serial.services@);
        let mut i: usize = 0;
        while i < serial.services.len()
            invariant
                0 <= i <= serial.services@.len(),
                views == services_view(serial.services@),
                out@ == declared + services_text(views.take(i as int)),
            decreases serial.services@.len() - i,
        {
            Self::gen_service_callers(&mut out, &serial.services[i]);
            proof {
                let next = views.take(i + 1);
                assert(next.drop_last() =~= views.take(i as int));
                assert(next.last() == serial.services@[i as int]@);
                assert(out@ =~= declared + services_text(next));
            }
            i = i + 1;
        }
        assert(views.take(serial.services@.len() as int) =~= views);
        assert(out@ =~= file_text(serial@));
        out
    }
}

/// The declarations for the enums of a list, each a text of its own.
pub open spec fn enum_blocks(enums: Seq<EnumView>) -> Seq<Seq<char>> {
    Seq::new(enums.len(), |i: int| enum_text(enums[i]))
}

/// The declarations for the messages of a list, each a text of its own.
pub open spec fn messages_blocks(ms: Seq<MessageView>) -> Seq<Seq<char>>
    decreases ms, 0int,
{
    if ms.len() == 0 {
        Seq::empty()
    } else {
        messages_blocks(ms.drop_last()) + message_blocks(ms.last())
    }
}

/// The declarations for a message, each a text of its own: those of its
/// nested messages, its nested enums, then its own struct.
pub open spec fn message_blocks(m: MessageView) -> Seq<Seq<char>>
    decreases m, 1int,
{
    messages_blocks(m.messages) + enum_blocks(m.enums) + seq![struct_text(m)]
}

/// The stubs for the rpcs of a list, each a text of its own.
pub open spec fn stub_blocks(rpcs: Seq<RpcView>) -> Seq<Seq<char>> {
    Seq::new(rpcs.len(), |i: int| stub_text(rpcs[i]))
}

/// The stubs for the services of a list, each a text of its own.
pub open spec fn services_blocks(services: Seq<ServiceView>) -> Seq<Seq<char>>
    decreases services.len(),
{
    if services.len() == 0 {
        Seq::empty()
    } else {
        services_blocks(services.drop_last()) + stub_blocks(services.last().rpcs)
    }
}

/// The declarations of a generated file, each a text of its own.
pub open spec fn file_blocks(tree: SerializeTreeView) -> Seq<Seq<char>> {
    messages_blocks(tree.messages) + enum_blocks(tree.enums) + services_blocks(tree.services)
}

/// The enums of a list become one declaration each.
pub proof fn lemma_enum_blocks(enums: Seq<EnumView>)
    ensures
        enum_blocks(enums).len() == enums.len(),
        concat(enum_blocks(enums)) == enums_text(enums),
    decreases enums.len(),
{
    if enums.len() > 0 {
        lemma_enum_blocks(enums.drop_last());
        assert(enum_blocks(enums).drop_last() =~= enum_blocks(enums.drop_last()));
    }
}

/// A message becomes one declaration for itself and one for each message
/// and enum nested in it.
pub proof fn lemma_message_blocks(m: MessageView)
    ensures
        message_blocks(m).len() == message_count(m) + enums_count(m),
        concat(message_blocks(m)) == message_text(m),
    decreases m, 1int,
{
    lemma_messages_blocks(m.messages);
    lemma_enum_blocks(m.enums);
    let inner = messages_blocks(m.messages) + enum_blocks(m.enums);
    lemma_concat_add(messages_blocks(m.messages), enum_blocks(m.enums));
    lemma_concat_add(inner, seq![struct_text(m)]);
    lemma_concat_one(struct_text(m));
}

/// The messages of a list become one declaration for each of them and for
/// each message and enum nested in them.
pub proof fn lemma_messages_blocks(ms: Seq<MessageView>)
    ensures
        messages_blocks(ms).len() == messages_count(ms) + nested_enums_count(ms),
        concat(messages_blocks(ms)) == messages_text(ms),
    decreases ms, 0int,
{
    if ms.len() > 0 {
        lemma_messages_blocks(ms.drop_last());
        lemma_message_blocks(ms.last());
        lemma_concat_add(messages_blocks(ms.drop_last()), message_blocks(ms.last()));
    }
}

/// The rpcs of a list become one stub each.
pub proof fn lemma_stub_blocks(rpcs: Seq<RpcView>)
    ensures
        stub_blocks(rpcs).len() == rpcs.len(),
        concat(stub_blocks(rpcs)) == stubs_text(rpcs),
    decreases rpcs.len(),
{
    if rpcs.len() > 0 {
        lemma_stub_blocks(rpcs.drop_last());
        assert(stub_blocks(rpcs).drop_last() =~= stub_blocks(rpcs.drop_last()));
    }
}

/// The services of a list become one stub for each of their rpcs.
pub proof fn lemma_services_blocks(services: Seq<ServiceView>)
    ensures
        services_blocks(services).len() == rpcs_count(services),
        concat(services_blocks(services)) == services_text(services),
    decreases services.len(),
{
    if services.len() > 0 {
        lemma_services_blocks(services.drop_last());
        lemma_stub_blocks(services.last().rpcs);
        lemma_concat_add(services_blocks(services.drop_last()), stub_blocks(services.last().rpcs));
    }
}

/// Every declaration of the tree, nested ones included, appears in the
/// generated text exactly once and complete: the text is made of one
/// declaration for each message, each enum and each rpc, one after the
/// other, those nested in a message before the message.
pub proof fn lemma_every_declaration_once(tree: SerializeTreeView)
    ensures
        concat(file_blocks(tree)) == file_text(tree),
        file_blocks(tree).len() == messages_count(tree.messages) + nested_enums_count(
            tree.messages,
        ) + tree.enums.len() + rpcs_count(tree.services),
{
    lemma_messages_blocks(tree.messages);
    lemma_enum_blocks(tree.enums);
    lemma_services_blocks(tree.services);
    lemma_concat_add(messages_blocks(tree.messages), enum_blocks(tree.enums));
    lemma_concat_add(
        messages_blocks(tree.messages) + enum_blocks(tree.enums),
        services_blocks(tree.services),
    );
}

} // verus!
