//! The lowered tree: the same shape as the syntax tree, with every handle
//! replaced by its text and every field type by its canonical name. It owns
//! its text, so it needs no interner and can feed any number of code
//! generators.

use crate::intern::{text_of, StringIntern};
use crate::parser;
use crate::parser::{FieldType, ParseTree, ParseTreeView};
use crate::tree::{enum_ok, field_ok, message_ok, rpc_ok, service_ok};
use crate::text::str_eq;
use vstd::prelude::*;

verus! {

#[derive(Debug, PartialEq)]
pub struct SerializeTree {
    pub messages: Vec<Message>,
    pub enums: Vec<Enum>,
    pub services: Vec<Service>,
}

#[derive(Debug, PartialEq, Default)]
pub struct Message {
    pub name: String,
    pub fields: Vec<Field>,
    pub messages: Vec<Message>,
    pub enums: Vec<Enum>,
}

#[derive(Debug, PartialEq, Default, Clone)]
pub struct Enum {
    pub name: String,
    pub variants: Vec<EnumVariant>,
}

#[derive(Debug, PartialEq, Default, Clone)]
pub struct EnumVariant {
    pub name: String,
    pub id: u32,
}

#[derive(Default, Clone, Debug, PartialEq)]
pub struct Field {
    pub name: String,
    pub idx: u32,
    /// The canonical name of the field's type.
    pub ftype: String,
    pub optional: bool,
}

#[derive(Debug, PartialEq, Default, Clone)]
pub struct Service {
    pub name: String,
    pub rpcs: Vec<Rpc>,
}

#[derive(Debug, PartialEq, Default, Clone)]
pub struct Rpc {
    pub name: String,
    pub arg_type: String,
    pub ret_type: String,
}

/// What a lowered field holds.
pub struct FieldView {
    pub name: Seq<char>,
    pub idx: u32,
    pub ftype: Seq<char>,
    pub optional: bool,
}

/// What a lowered variant holds.
pub struct EnumVariantView {
    pub name: Seq<char>,
    pub id: u32,
}

/// What a lowered enum holds.
pub struct EnumView {
    pub name: Seq<char>,
    pub variants: Seq<EnumVariantView>,
}

/// What a lowered message holds, nested declarations included.
pub struct MessageView {
    pub name: Seq<char>,
    pub fields: Seq<FieldView>,
    pub messages: Seq<MessageView>,
    pub enums: Seq<EnumView>,
}

/// What a lowered rpc holds.
pub struct RpcView {
    pub name: Seq<char>,
    pub arg_type: Seq<char>,
    pub ret_type: Seq<char>,
}

/// What a lowered service holds.
pub struct ServiceView {
    pub name: Seq<char>,
    pub rpcs: Seq<RpcView>,
}

/// What a lowered tree holds.
pub struct SerializeTreeView {
    pub messages: Seq<MessageView>,
    pub enums: Seq<EnumView>,
    pub services: Seq<ServiceView>,
}

impl View for Field {
    type V = FieldView;

    open spec fn view(&self) -> FieldView {
        FieldView { name: self.name@, idx: self.idx, ftype: self.ftype@, optional: self.optional }
    }
}

impl View for EnumVariant {
    type V = EnumVariantView;

    open spec fn view(&self) -> EnumVariantView {
        EnumVariantView { name: self.name@, id: self.id }
    }
}

impl View for Enum {
    type V = EnumView;

    open spec fn view(&self) -> EnumView {
        EnumView {
            name: self.name@,
            variants: Seq::new(self.variants@.len(), |i: int| self.variants@[i]@),
        }
    }
}

impl View for Rpc {
    type V = RpcView;

    open spec fn view(&self) -> RpcView {
        RpcView { name: self.name@, arg_type: self.arg_type@, ret_type: self.ret_type@ }
    }
}

impl View for Service {
    type V = ServiceView;

    open spec fn view(&self) -> ServiceView {
        ServiceView { name: self.name@, rpcs: Seq::new(self.rpcs@.len(), |i: int| self.rpcs@[i]@) }
    }
}

/// What the fields of a list hold, one by one.
pub open spec fn fields_view(fields: Seq<Field>) -> Seq<FieldView> {
    Seq::new(fields.len(), |i: int| fields[i]@)
}

/// What the enums of a list hold, one by one.
pub open spec fn enums_view(enums: Seq<Enum>) -> Seq<EnumView> {
    Seq::new(enums.len(), |i: int| enums[i]@)
}

/// What the services of a list hold, one by one.
pub open spec fn services_view(services: Seq<Service>) -> Seq<ServiceView> {
    Seq::new(services.len(), |i: int| services[i]@)
}

/// What the messages of a list hold, one by one.
pub open spec fn messages_view(messages: Seq<Message>) -> Seq<MessageView>
    decreases messages, 0int,
{
    if messages.len() == 0 {
        Seq::empty()
    } else {
        messages_view(messages.drop_last()).push(message_view(messages.last()))
    }
}

/// What a message holds.
pub open spec fn message_view(m: Message) -> MessageView
    decreases m, 1int,
{
    MessageView {
        name: m.name@,
        fields: fields_view(m.fields@),
        messages: messages_view(m.messages@),
        enums: enums_view(m.enums@),
    }
}

impl View for Message {
    type V = MessageView;

    open spec fn view(&self) -> MessageView {
        message_view(*self)
    }
}

impl View for SerializeTree {
    type V = SerializeTreeView;

    open spec fn view(&self) -> SerializeTreeView {
        SerializeTreeView {
            messages: messages_view(self.messages@),
            enums: enums_view(self.enums@),
            services: services_view(self.services@),
        }
    }
}

/// The views of a list of messages stand at the places of the messages.
pub proof fn lemma_messages_view(messages: Seq<Message>)
    ensures
        messages_view(messages).len() == messages.len(),
        forall|i: int|
            0 <= i < messages.len() ==> #[trigger] messages_view(messages)[i] == messages[i]@,
    decreases messages.len(),
{
    if messages.len() > 0 {
        lemma_messages_view(messages.drop_last());
    }
}

/// The canonical name of a field type: a fixed name for each scalar, and
/// the referenced declaration's own name for a reference.
pub open spec fn canonical_name(strings: Seq<Seq<char>>, t: FieldType) -> Seq<char> {
    match t {
        FieldType::Int32 => "i32"@,
        FieldType::Int64 => "i64"@,
        FieldType::Uint32 => "u32"@,
        FieldType::Uint64 => "u64"@,
        FieldType::String => "String"@,
        FieldType::Message(id) => strings[id as int],
        FieldType::Enum(id) => strings[id as int],
        FieldType::Undef => Seq::empty(),
    }
}

/// A field with its name as text and its type as a canonical name.
pub open spec fn lower_field(strings: Seq<Seq<char>>, f: parser::Field) -> FieldView {
    FieldView {
        name: strings[f.name as int],
        idx: f.idx,
        ftype: canonical_name(strings, f.ftype),
        optional: f.optional,
    }
}

/// A variant with its name as text.
pub open spec fn lower_variant(strings: Seq<Seq<char>>, v: parser::EnumVariant) -> EnumVariantView {
    EnumVariantView { name: strings[v.name as int], id: v.id }
}

/// An enum with its names as text.
pub open spec fn lower_enum(strings: Seq<Seq<char>>, e: parser::EnumView) -> EnumView {
    EnumView {
        name: strings[e.name as int],
        variants: Seq::new(e.variants.len(), |i: int| lower_variant(strings, e.variants[i])),
    }
}

/// The lowered enums of a list, in the order of the list.
pub open spec fn lower_enums(strings: Seq<Seq<char>>, enums: Seq<parser::EnumView>) -> Seq<
    EnumView,
> {
    Seq::new(enums.len(), |i: int| lower_enum(strings, enums[i]))
}

/// The lowered fields of a list, in the order of the list.
pub open spec fn lower_fields(strings: Seq<Seq<char>>, fields: Seq<parser::Field>) -> Seq<
    FieldView,
> {
    Seq::new(fields.len(), |i: int| lower_field(strings, fields[i]))
}

/// The lowered messages of a list, in the order of the list.
pub open spec fn lower_messages(strings: Seq<Seq<char>>, ms: Seq<parser::MessageView>) -> Seq<
    MessageView,
>
    decreases ms, 0int,
{
    if ms.len() == 0 {
        Seq::empty()
    } else {
        lower_messages(strings, ms.drop_last()).push(lower_message(strings, ms.last()))
    }
}

/// A message with its handles replaced by their texts, nested declarations
/// included, in the order in which they were declared.
pub open spec fn lower_message(strings: Seq<Seq<char>>, m: parser::MessageView) -> MessageView
    decreases m, 1int,
{
    MessageView {
        name: strings[m.name as int],
        fields: lower_fields(strings, m.fields),
        messages: lower_messages(strings, m.messages),
        enums: lower_enums(strings, m.enums),
    }
}

/// An rpc with its names as text.
pub open spec fn lower_rpc(strings: Seq<Seq<char>>, r: parser::Rpc) -> RpcView {
    RpcView {
        name: strings[r.name as int],
        arg_type: strings[r.arg_type as int],
        ret_type: strings[r.ret_type as int],
    }
}

/// A service with its names as text.
pub open spec fn lower_service(strings: Seq<Seq<char>>, s: parser::ServiceView) -> ServiceView {
    ServiceView {
        name: strings[s.name as int],
        rpcs: Seq::new(s.rpcs.len(), |i: int| lower_rpc(strings, s.rpcs[i])),
    }
}

/// The lowered services of a list, in the order of the list.
pub open spec fn lower_services(strings: Seq<Seq<char>>, services: Seq<parser::ServiceView>) -> Seq<
    ServiceView,
> {
    Seq::new(services.len(), |i: int| lower_service(strings, services[i]))
}

/// The lowered tree of a syntax tree.
pub open spec fn lower(tree: ParseTreeView) -> SerializeTreeView {
    SerializeTreeView {
        messages: lower_messages(tree.strings, tree.messages),
        enums: lower_enums(tree.strings, tree.enums),
        services: lower_services(tree.strings, tree.services),
    }
}

/// The lowered messages stand at the places of the messages.
pub proof fn lemma_lower_messages(strings: Seq<Seq<char>>, ms: Seq<parser::MessageView>)
    ensures
        lower_messages(strings, ms).len() == ms.len(),
        forall|i: int|
            0 <= i < ms.len() ==> #[trigger] lower_messages(strings, ms)[i] == lower_message(
                strings,
                ms[i],
            ),
    decreases ms.len(),
{
    if ms.len() > 0 {
        lemma_lower_messages(strings, ms.drop_last());
    }
}

/// Whether a field type is one of the scalar types.
pub open spec fn is_scalar(ft: FieldType) -> bool {
    ft is Int32 || ft is Int64 || ft is Uint32 || ft is Uint64 || ft is String
}

/// The scalar type that a canonical type name stands for; `None` for the
/// name of a declaration.
pub open spec fn scalar_of(canonical: Seq<char>) -> Option<FieldType> {
    if canonical == "i32"@ {
        Some(FieldType::Int32)
    } else if canonical == "i64"@ {
        Some(FieldType::Int64)
    } else if canonical == "u32"@ {
        Some(FieldType::Uint32)
    } else if canonical == "u64"@ {
        Some(FieldType::Uint64)
    } else if canonical == "String"@ {
        Some(FieldType::String)
    } else {
        None
    }
}

/// The scalar type that a canonical type name stands for.
pub fn scalar_of_canonical(canonical: &str) -> (res: Option<FieldType>)
    ensures
        res == scalar_of(canonical@),
        res matches Some(ft) ==> is_scalar(ft),
{
    if str_eq(canonical, "i32") {
        Some(FieldType::Int32)
    } else if str_eq(canonical, "i64") {
        Some(FieldType::Int64)
    } else if str_eq(canonical, "u32") {
        Some(FieldType::Uint32)
    } else if str_eq(canonical, "u64") {
        Some(FieldType::Uint64)
    } else if str_eq(canonical, "String") {
        Some(FieldType::String)
    } else {
        None
    }
}

/// The canonical name of a field type.
pub fn field_type_to_rust_str(intern: &StringIntern, ft: &FieldType) -> (name: String)
    requires
        !(ft is Undef),
        crate::tree::referenced(*ft) matches Some(id) ==> id < intern@.len(),
    ensures
        name@ == canonical_name(intern@, *ft),
{
    match ft {
        FieldType::Int32 => "i32".to_owned(),
        FieldType::Int64 => "i64".to_owned(),
        FieldType::Uint32 => "u32".to_owned(),
        FieldType::Uint64 => "u64".to_owned(),
        FieldType::String => "String".to_owned(),
        FieldType::Message(m) => text_of(intern, *m),
        FieldType::Enum(e) => text_of(intern, *e),
        FieldType::Undef => String::new(),
    }
}

impl SerializeTree {
    fn rollup_enum(tree: &ParseTree, cur_enum: &parser::Enum) -> (res: Enum)
        requires
            enum_ok(cur_enum@, tree@.strings.len() as int),
        ensures
            res@ == lower_enum(tree@.strings, cur_enum@),
    {
        let mut variants: Vec<EnumVariant> = Vec::new();
        let mut i: usize = 0;
        while i < cur_enum.variants.len()
            invariant
                0 <= i <= cur_enum.variants@.len(),
                enum_ok(cur_enum@, tree@.strings.len() as int),
                variants@.len() == i,
                forall|k: int|
                    0 <= k < i ==> (#[trigger] variants@[k])@ == lower_variant(
                        tree@.strings,
                        cur_enum.variants@[k],
                    ),
            decreases cur_enum.variants@.len() - i,
        {
            let var = &cur_enum.variants[i];
            assert(cur_enum@.variants[i as int].name < tree@.strings.len());
            variants.push(EnumVariant { name: text_of(&tree.intern, var.name), id: var.id });
            i = i + 1;
        }
        let res = Enum { name: text_of(&tree.intern, cur_enum.name), variants };
        assert(res@.variants =~= lower_enum(tree@.strings, cur_enum@).variants);
        res
    }

    fn rollup_enums(tree: &ParseTree, enums: &Vec<parser::Enum>) -> (res: Vec<Enum>)
        requires
            forall|i: int|
                0 <= i < enums@.len() ==> enum_ok(
                    (#[trigger] enums@[i])@,
                    tree@.strings.len() as int,
                ),
        ensures
            enums_view(res@) == lower_enums(tree@.strings, parser::enums_view(enums@)),
    {
        let mut out: Vec<Enum> = Vec::new();
        let mut i: usize = 0;
        while i < enums.len()
            invariant
                0 <= i <= enums@.len(),
                forall|k: int|
                    0 <= k < enums@.len() ==> enum_ok(
                        (#[trigger] enums@[k])@,
                        tree@.strings.len() as int,
                    ),
                out@.len() == i,
                forall|k: int|
                    0 <= k < i ==> (#[trigger] out@[k])@ == lower_enum(tree@.strings, enums@[k]@),
            decreases enums@.len() - i,
        {
            out.push(Self::rollup_enum(tree, &enums[i]));
            i = i + 1;
        }
        assert(enums_view(out@) =~= lower_enums(tree@.strings, parser::enums_view(enums@)));
        out
    }

    fn rollup_fields(tree: &ParseTree, fields: &Vec<parser::Field>) -> (res: Vec<Field>)
        requires
            forall|i: int|
                0 <= i < fields@.len() ==> field_ok(
                    #[trigger] fields@[i],
                    tree@.strings.len() as int,
                ),
        ensures
            fields_view(res@) == lower_fields(tree@.strings, fields@),
    {
        let mut out: Vec<Field> = Vec::new();
        let mut i: usize = 0;
        while i < fields.len()
            invariant
                0 <= i <= fields@.len(),
                forall|k: int|
                    0 <= k < fields@.len() ==> field_ok(
                        #[trigger] fields@[k],
                        tree@.strings.len() as int,
                    ),
                out@.len() == i,
                forall|k: int|
                    0 <= k < i ==> (#[trigger] out@[k])@ == lower_field(tree@.strings, fields@[k]),
            decreases fields@.len() - i,
        {
            let field = &fields[i];
            out.push(
                Field {
                    name: text_of(&tree.intern, field.name),
                    idx: field.idx,
                    ftype: field_type_to_rust_str(&tree.intern, &field.ftype),
                    optional: field.optional,
                },
            );
            i = i + 1;
        }
        assert(fields_view(out@) =~= lower_fields(tree@.strings, fields@));
        out
    }

    fn rollup_message(tree: &ParseTree, msg: &parser::Message) -> (res: Message)
        requires
            message_ok(msg@, tree@.strings.len() as int),
        ensures
            res@ == lower_message(tree@.strings, msg@),
        decreases msg,
    {
        let ghost n = tree@.strings.len() as int;
        proof {
            assert forall|i: int| 0 <= i < msg.enums@.len() implies enum_ok(
                (#[trigger] msg.enums@[i])@,
                n,
            ) by {
                assert(enum_ok(msg@.enums[i], n));
            }
            assert forall|i: int| 0 <= i < msg.fields@.len() implies field_ok(
                #[trigger] msg.fields@[i],
                n,
            ) by {
                assert(field_ok(msg@.fields[i], n));
            }
            let views = parser::messages_view(msg.messages@);
            assert(msg@.messages == views);
            parser::lemma_messages_view(msg.messages@);
            assert forall|i: int| 0 <= i < msg.messages@.len() implies message_ok(
                #[trigger] views[i],
                n,
            ) by {
                assert(message_ok(msg@.messages[i], n));
            }
        }
        let fields = Self::rollup_fields(tree, &msg.fields);
        let messages = Self::rollup_messages(tree, &msg.messages);
        let enums = Self::rollup_enums(tree, &msg.enums);
        Message { name: text_of(&tree.intern, msg.name), fields, messages, enums }
    }

    fn rollup_messages(tree: &ParseTree, ms: &Vec<parser::Message>) -> (res: Vec<Message>)
        requires
            forall|i: int|
                0 <= i < ms@.len() ==> message_ok(
                    #[trigger] parser::messages_view(ms@)[i],
                    tree@.strings.len() as int,
                ),
        ensures
            messages_view(res@) == lower_messages(tree@.strings, parser::messages_view(ms@)),
        decreases ms,
    {
        let ghost views = parser::messages_view(ms@);
        proof {
            parser::lemma_messages_view(ms@);
        }
        let mut out: Vec<Message> = Vec::new();
        let mut i: usize = 0;
        while i < ms.len()
            invariant
                0 <= i <= ms@.len(),
                views == parser::messages_view(ms@),
                views.len() == ms@.len(),
                forall|k: int| 0 <= k < ms@.len() ==> #[trigger] views[k] == ms@[k]@,
                forall|k: int|
                    0 <= k < ms@.len() ==> message_ok(
                        #[trigger] views[k],
                        tree@.strings.len() as int,
                    ),
                out@.len() == i,
                forall|k: int|
                    0 <= k < i ==> (#[trigger] out@[k])@ == lower_message(tree@.strings, views[k]),
            decreases ms@.len() - i,
        {
            assert(views[i as int] == ms@[i as int]@);
            out.push(Self::rollup_message(tree, &ms[i]));
            i = i + 1;
        }
        proof {
            lemma_messages_view(out@);
            lemma_lower_messages(tree@.strings, views);
            assert(messages_view(out@) =~= lower_messages(tree@.strings, views));
        }
        out
    }

    fn rollup_service(tree: &ParseTree, svc: &parser::Service) -> (res: Service)
        requires
            service_ok(svc@, tree@.strings.len() as int),
        ensures
            res@ == lower_service(tree@.strings, svc@),
    {
        let mut rpcs: Vec<Rpc> = Vec::new();
        let mut i: usize = 0;
        while i < svc.rpcs.len()
            invariant
                0 <= i <= svc.rpcs@.len(),
                service_ok(svc@, tree@.strings.len() as int),
                rpcs@.len() == i,
                forall|k: int|
                    0 <= k < i ==> (#[trigger] rpcs@[k])@ == lower_rpc(tree@.strings, svc.rpcs@[k]),
            decreases svc.rpcs@.len() - i,
        {
            let rpc = &svc.rpcs[i];
            assert(rpc_ok(svc@.rpcs[i as int], tree@.strings.len() as int));
            rpcs.push(
                Rpc {
                    name: text_of(&tree.intern, rpc.name),
                    arg_type: text_of(&tree.intern, rpc.arg_type),
                    ret_type: text_of(&tree.intern, rpc.ret_type),
                },
            );
            i = i + 1;
        }
        let res = Service { name: text_of(&tree.intern, svc.name), rpcs };
        assert(res@.rpcs =~= lower_service(tree@.strings, svc@).rpcs);
        res
    }

    /// Lowers a syntax tree: every handle becomes its text, every field type
    /// its canonical name. The result is a function of the tree alone.
    pub fn from_parse_tree(tree: &ParseTree) -> (res: Self)
        requires
            tree.wf(),
        ensures
            res@ == lower(tree@),
    {
        proof {
            parser::lemma_messages_view(tree.messages@);
            assert forall|i: int| 0 <= i < tree.messages@.len() implies message_ok(
                #[trigger] parser::messages_view(tree.messages@)[i],
                tree@.strings.len() as int,
            ) by {
                assert(message_ok(tree@.messages[i], tree@.strings.len() as int));
            }
            assert forall|i: int| 0 <= i < tree.enums@.len() implies enum_ok(
                (#[trigger] tree.enums@[i])@,
                tree@.strings.len() as int,
            ) by {
                assert(enum_ok(tree@.enums[i], tree@.strings.len() as int));
            }
        }
        let messages = Self::rollup_messages(tree, &tree.messages);
        let enums = Self::rollup_enums(tree, &tree.enums);
        let mut services: Vec<Service> = Vec::new();
        let mut i: usize = 0;
        while i < tree.services.len()
            invariant
                0 <= i <= tree.services@.len(),
                tree.wf(),
                services@.len() == i,
                forall|k: int|
                    0 <= k < i ==> (#[trigger] services@[k])@ == lower_service(
                        tree@.strings,
                        tree.services@[k]@,
                    ),
            decreases tree.services@.len() - i,
        {
            assert(service_ok(tree@.services[i as int], tree@.strings.len() as int));
            services.push(Self::rollup_service(tree, &tree.services[i]));
            i = i + 1;
        }
        assert(services_view(services@) =~= lower_services(tree@.strings, tree@.services));
        Self { messages, services, enums }
    }
}

/// The number of messages in a list, nested messages counted.
pub open spec fn messages_count(ms: Seq<MessageView>) -> nat
    decreases ms, 0int,
{
    if ms.len() == 0 {
        0
    } else {
        messages_count(ms.drop_last()) + message_count(ms.last())
    }
}

/// The number of messages that `m` stands for: itself and those nested in
/// it at any depth.
pub open spec fn message_count(m: MessageView) -> nat
    decreases m, 1int,
{
    1 + messages_count(m.messages)
}

/// The number of enums nested in the messages of a list, at any depth.
pub open spec fn nested_enums_count(ms: Seq<MessageView>) -> nat
    decreases ms, 0int,
{
    if ms.len() == 0 {
        0
    } else {
        nested_enums_count(ms.drop_last()) + enums_count(ms.last())
    }
}

/// The number of enums nested in `m`, at any depth.
pub open spec fn enums_count(m: MessageView) -> nat
    decreases m, 1int,
{
    m.enums.len() + nested_enums_count(m.messages)
}

/// The number of rpcs of the services of a list.
pub open spec fn rpcs_count(services: Seq<ServiceView>) -> nat
    decreases services.len(),
{
    if services.len() == 0 {
        0
    } else {
        rpcs_count(services.drop_last()) + services.last().rpcs.len()
    }
}

/// Lowering is a function of the tree: two lowerings of one tree hold the
/// same.
pub proof fn lemma_lowering_deterministic(tree: ParseTree, a: SerializeTree, b: SerializeTree)
    requires
        a@ == lower(tree@),
        b@ == lower(tree@),
    ensures
        a@ == b@,
{
}

} // verus!
