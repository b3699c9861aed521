//! Validation of a whole tree: field tags are distinct within a message, and
//! every type reference names a message or an enum declared somewhere in the
//! tree. Duplicate tags are looked for first, over the whole tree; then
//! unresolved field types; then unresolved rpc types. The first finding, in
//! the order of the declarations, is the error.

use crate::intern::{text_of, StringId, StringIntern};
use crate::parser::{
    lemma_messages_view, result_view, Enum, EnumView, Field, FieldType, Location, LocationView,
    Message, MessageView, ParseError, ParseErrorKind, ParseErrorKindView, ParseErrorView,
    ParseTree, ParseTreeView, Rpc, Service, ServiceView,
};
use crate::tree::{enum_ok, field_ok, message_ok, referenced, rpc_ok, service_ok};
use vstd::prelude::*;

verus! {

/// Whether one of the first `upto` enums of a list is called `id`.
pub open spec fn enum_named_below(enums: Seq<EnumView>, upto: int, id: StringId) -> bool {
    exists|j: int| 0 <= j < upto && j < enums.len() && (#[trigger] enums[j]).name == id
}

/// Whether an enum of the list is called `id`.
pub open spec fn enum_named(enums: Seq<EnumView>, id: StringId) -> bool {
    enum_named_below(enums, enums.len() as int, id)
}

/// Whether `m`, or a message or enum nested in it at any depth, is called
/// `id`.
pub open spec fn declared_in(m: MessageView, id: StringId) -> bool
    decreases m,
{
    ||| m.name == id
    ||| enum_named(m.enums, id)
    ||| exists|k: int| 0 <= k < m.messages.len() && declared_in(#[trigger] m.messages[k], id)
}

/// Whether one of the first `upto` messages of a list declares `id`.
pub open spec fn declared_among(ms: Seq<MessageView>, upto: int, id: StringId) -> bool {
    exists|k: int| 0 <= k < upto && k < ms.len() && declared_in(#[trigger] ms[k], id)
}

/// Whether a message or an enum anywhere in the tree is called `id`.
pub open spec fn is_declared(tree: ParseTreeView, id: StringId) -> bool {
    declared_among(tree.messages, tree.messages.len() as int, id) || enum_named(tree.enums, id)
}

/// Whether field `j` has the tag of a field before it.
pub open spec fn repeats(fields: Seq<Field>, j: int) -> bool {
    exists|i: int| 0 <= i < j && (#[trigger] fields[i]).idx == fields[j].idx
}

/// Whether two fields of the list share a tag.
pub open spec fn has_duplicate_tag(fields: Seq<Field>) -> bool {
    exists|j: int| 0 <= j < fields.len() && #[trigger] repeats(fields, j)
}

/// The first field at or after `from` that repeats an earlier tag, or the
/// number of fields when there is none.
pub open spec fn first_repeat(fields: Seq<Field>, from: int) -> int
    decreases fields.len() - from,
{
    if from < 0 || from >= fields.len() {
        fields.len() as int
    } else if repeats(fields, from) {
        from
    } else {
        first_repeat(fields, from + 1)
    }
}

/// The place of a field or rpc: the names of its owner and of itself.
pub open spec fn member(strings: Seq<Seq<char>>, owner: StringId, name: StringId) -> LocationView {
    LocationView::Member { owner: strings[owner as int], name: strings[name as int] }
}

/// The error for a field that repeats a tag.
pub open spec fn duplicate_error(
    strings: Seq<Seq<char>>,
    owner: StringId,
    name: StringId,
    tag: u32,
) -> ParseErrorView {
    ParseErrorView {
        kind: ParseErrorKindView::DuplicateFieldTag(tag),
        location: member(strings, owner, name),
    }
}

/// The error for a field or rpc whose type `ty` names no declaration.
pub open spec fn unresolved_error(
    strings: Seq<Seq<char>>,
    owner: StringId,
    name: StringId,
    ty: StringId,
) -> ParseErrorView {
    ParseErrorView {
        kind: ParseErrorKindView::UnresolvedType(strings[ty as int]),
        location: member(strings, owner, name),
    }
}

/// The first duplicate tag in `m` and the messages nested in it: `m`'s own
/// fields first, then the nested messages in their order.
pub open spec fn duplicate_in(strings: Seq<Seq<char>>, m: MessageView) -> Option<ParseErrorView>
    decreases m, 0int,
{
    let j = first_repeat(m.fields, 0);
    if j < m.fields.len() {
        Some(duplicate_error(strings, m.name, m.fields[j].name, m.fields[j].idx))
    } else {
        duplicate_among(strings, m.messages, 0)
    }
}

/// The first duplicate tag in the messages of a list from `from` on.
pub open spec fn duplicate_among(strings: Seq<Seq<char>>, ms: Seq<MessageView>, from: int) -> Option<
    ParseErrorView,
>
    decreases ms, ms.len() - from,
{
    if from < 0 || from >= ms.len() {
        None
    } else {
        match duplicate_in(strings, ms[from]) {
            Some(e) => Some(e),
            None => duplicate_among(strings, ms, from + 1),
        }
    }
}

/// The first field of `m` at or after `from` whose type refers to a name
/// that the tree does not declare.
pub open spec fn unresolved_field(tree: ParseTreeView, m: MessageView, from: int) -> Option<
    ParseErrorView,
>
    decreases m.fields.len() - from,
{
    if from < 0 || from >= m.fields.len() {
        None
    } else {
        let f = m.fields[from];
        match referenced(f.ftype) {
            Some(id) => if is_declared(tree, id) {
                unresolved_field(tree, m, from + 1)
            } else {
                Some(unresolved_error(tree.strings, m.name, f.name, id))
            },
            None => unresolved_field(tree, m, from + 1),
        }
    }
}

/// The first unresolved field type in `m` and the messages nested in it.
pub open spec fn unresolved_in(tree: ParseTreeView, m: MessageView) -> Option<ParseErrorView>
    decreases m, 0int,
{
    match unresolved_field(tree, m, 0) {
        Some(e) => Some(e),
        None => unresolved_among(tree, m.messages, 0),
    }
}

/// The first unresolved field type in the messages of a list from `from`
/// on.
pub open spec fn unresolved_among(tree: ParseTreeView, ms: Seq<MessageView>, from: int) -> Option<
    ParseErrorView,
>
    decreases ms, ms.len() - from,
{
    if from < 0 || from >= ms.len() {
        None
    } else {
        match unresolved_in(tree, ms[from]) {
            Some(e) => Some(e),
            None => unresolved_among(tree, ms, from + 1),
        }
    }
}

/// The first rpc of `s` at or after `from` whose argument or return type
/// the tree does not declare; the argument is looked at first.
pub open spec fn unresolved_rpc(tree: ParseTreeView, s: ServiceView, from: int) -> Option<
    ParseErrorView,
>
    decreases s.rpcs.len() - from,
{
    if from < 0 || from >= s.rpcs.len() {
        None
    } else {
        let r = s.rpcs[from];
        if !is_declared(tree, r.arg_type) {
            Some(unresolved_error(tree.strings, s.name, r.name, r.arg_type))
        } else if !is_declared(tree, r.ret_type) {
            Some(unresolved_error(tree.strings, s.name, r.name, r.ret_type))
        } else {
            unresolved_rpc(tree, s, from + 1)
        }
    }
}

/// The first unresolved rpc type in the services of a list from `from` on.
pub open spec fn unresolved_service(tree: ParseTreeView, from: int) -> Option<ParseErrorView>
    decreases tree.services.len() - from,
{
    if from < 0 || from >= tree.services.len() {
        None
    } else {
        match unresolved_rpc(tree, tree.services[from], 0) {
            Some(e) => Some(e),
            None => unresolved_service(tree, from + 1),
        }
    }
}

/// What validation finds: nothing, or the first error.
pub open spec fn validation(tree: ParseTreeView) -> Result<(), ParseErrorView> {
    match duplicate_among(tree.strings, tree.messages, 0) {
        Some(e) => Err(e),
        None => match unresolved_among(tree, tree.messages, 0) {
            Some(e) => Err(e),
            None => match unresolved_service(tree, 0) {
                Some(e) => Err(e),
                None => Ok(()),
            },
        },
    }
}

/// The first repeat is where the first field stands that repeats a tag.
pub proof fn lemma_first_repeat(fields: Seq<Field>, from: int, end: int)
    requires
        0 <= from <= end <= fields.len(),
        forall|j: int| from <= j < end ==> !#[trigger] repeats(fields, j),
        end < fields.len() ==> repeats(fields, end),
    ensures
        first_repeat(fields, from) == end,
    decreases end - from,
{
    if from < end {
        lemma_first_repeat(fields, from + 1, end);
    }
}

/// The place of a field or rpc.
fn member_of(intern: &StringIntern, owner: StringId, name: StringId) -> (loc: Location)
    requires
        owner < intern@.len(),
        name < intern@.len(),
    ensures
        loc@ == member(intern@, owner, name),
{
    Location::Member { owner: text_of(intern, owner), name: text_of(intern, name) }
}

/// The first field that repeats the tag of an earlier one.
pub fn repeated_tag(fields: &Vec<Field>) -> (res: Option<usize>)
    ensures
        match res {
            Some(j) => j < fields@.len() && j == first_repeat(fields@, 0),
            None => first_repeat(fields@, 0) == fields@.len(),
        },
{
    let mut j: usize = 0;
    while j < fields.len()
        invariant
            0 <= j <= fields@.len(),
            forall|k: int| 0 <= k < j ==> !#[trigger] repeats(fields@, k),
        decreases fields@.len() - j,
    {
        let mut i: usize = 0;
        while i < j
            invariant
                0 <= i <= j < fields@.len(),
                forall|k: int| 0 <= k < j ==> !#[trigger] repeats(fields@, k),
                forall|k: int| 0 <= k < i ==> (#[trigger] fields@[k]).idx != fields@[j as int].idx,
            decreases j - i,
        {
            if fields[i].idx == fields[j].idx {
                proof {
                    assert(repeats(fields@, j as int));
                    lemma_first_repeat(fields@, 0, j as int);
                }
                return Some(j);
            }
            i = i + 1;
        }
        j = j + 1;
    }
    proof {
        lemma_first_repeat(fields@, 0, fields@.len() as int);
    }
    None
}

/// The first duplicate tag in `m` and the messages nested in it.
fn find_duplicate(intern: &StringIntern, m: &Message) -> (res: Option<ParseError>)
    requires
        message_ok(m@, intern@.len() as int),
    ensures
        res matches Some(e) ==> duplicate_in(intern@, m@) == Some(e@),
        res is None ==> duplicate_in(intern@, m@) is None,
    decreases m,
{
    if let Some(j) = repeated_tag(&m.fields) {
        let f = &m.fields[j];
        assert(field_ok(m@.fields[j as int], intern@.len() as int));
        return Some(
            ParseError {
                kind: ParseErrorKind::DuplicateFieldTag(f.idx),
                location: member_of(intern, m.name, f.name),
            },
        );
    }
    proof {
        let views = crate::parser::messages_view(m.messages@);
        assert(m@.messages == views);
        assert forall|i: int| 0 <= i < m.messages@.len() implies message_ok(
            #[trigger] views[i],
            intern@.len() as int,
        ) by {
            lemma_messages_view(m.messages@);
            assert(message_ok(m@.messages[i], intern@.len() as int));
        }
    }
    find_duplicate_among(intern, &m.messages)
}

/// The first duplicate tag in the messages of a list.
fn find_duplicate_among(intern: &StringIntern, ms: &Vec<Message>) -> (res: Option<ParseError>)
    requires
        forall|i: int|
            0 <= i < ms@.len() ==> message_ok(
                #[trigger] crate::parser::messages_view(ms@)[i],
                intern@.len() as int,
            ),
    ensures
        res matches Some(e) ==> duplicate_among(intern@, crate::parser::messages_view(ms@), 0)
            == Some(e@),
        res is None ==> duplicate_among(intern@, crate::parser::messages_view(ms@), 0) is None,
    decreases ms,
{
    let ghost views = crate::parser::messages_view(ms@);
    proof {
        lemma_messages_view(ms@);
    }
    let mut i: usize = 0;
    while i < ms.len()
        invariant
            0 <= i <= ms@.len(),
            views == crate::parser::messages_view(ms@),
            views.len() == ms@.len(),
            forall|k: int| 0 <= k < ms@.len() ==> #[trigger] views[k] == ms@[k]@,
            forall|k: int| 0 <= k < ms@.len() ==> message_ok(#[trigger] views[k], intern@.len() as int),
            duplicate_among(intern@, views, 0) == duplicate_among(intern@, views, i as int),
        decreases ms@.len() - i,
    {
        assert(views[i as int] == ms@[i as int]@);
        if let Some(e) = find_duplicate(intern, &ms[i]) {
            return Some(e);
        }
        i = i + 1;
    }
    None
}

/// One more enum of the list is looked at.
pub proof fn lemma_enum_named_step(enums: Seq<EnumView>, i: int, id: StringId)
    requires
        0 <= i < enums.len(),
    ensures
        enum_named_below(enums, i + 1, id) == (enum_named_below(enums, i, id) || enums[i].name
            == id),
{
    if enum_named_below(enums, i + 1, id) {
        let j = choose|j: int| 0 <= j < i + 1 && j < enums.len() && (#[trigger] enums[j]).name == id;
        if j < i {
            assert(enum_named_below(enums, i, id));
        }
    }
    if enum_named_below(enums, i, id) {
        let j = choose|j: int| 0 <= j < i && j < enums.len() && (#[trigger] enums[j]).name == id;
        assert(enums[j].name == id);
    }
    if enums[i].name == id {
        assert(enum_named_below(enums, i + 1, id));
    }
}

/// One more message of the list is looked at.
pub proof fn lemma_declared_step(ms: Seq<MessageView>, i: int, id: StringId)
    requires
        0 <= i < ms.len(),
    ensures
        declared_among(ms, i + 1, id) == (declared_among(ms, i, id) || declared_in(ms[i], id)),
{
    if declared_among(ms, i + 1, id) {
        let k = choose|k: int| 0 <= k < i + 1 && k < ms.len() && declared_in(#[trigger] ms[k], id);
        if k < i {
            assert(declared_among(ms, i, id));
        }
    }
    if declared_among(ms, i, id) {
        let k = choose|k: int| 0 <= k < i && k < ms.len() && declared_in(#[trigger] ms[k], id);
        assert(declared_in(ms[k], id));
    }
    if declared_in(ms[i], id) {
        assert(declared_among(ms, i + 1, id));
    }
}

/// A message declares its own name, the names of its enums, and what its
/// nested messages declare.
pub proof fn lemma_declared_in(m: MessageView, id: StringId)
    ensures
        declared_in(m, id) == (m.name == id || enum_named(m.enums, id) || declared_among(
            m.messages,
            m.messages.len() as int,
            id,
        )),
{
    if declared_among(m.messages, m.messages.len() as int, id) {
        let k = choose|k: int|
            0 <= k < m.messages.len() && k < m.messages.len() && declared_in(
                #[trigger] m.messages[k],
                id,
            );
        assert(declared_in(m.messages[k], id));
    }
    if exists|k: int| 0 <= k < m.messages.len() && declared_in(#[trigger] m.messages[k], id) {
        let k = choose|k: int| 0 <= k < m.messages.len() && declared_in(#[trigger] m.messages[k], id);
        assert(declared_in(m.messages[k], id));
        assert(declared_among(m.messages, m.messages.len() as int, id));
    }
}

/// Marks the names of the enums of a list in the table.
fn mark_enums(table: &mut Vec<bool>, enums: &Vec<Enum>)
    requires
        forall|i: int|
            0 <= i < enums@.len() ==> (#[trigger] enums@[i]).name < old(table)@.len(),
    ensures
        final(table)@.len() == old(table)@.len(),
        forall|id: StringId|
            id < old(table)@.len() ==> #[trigger] final(table)@[id as int] == (old(table)@[id as int]
                || enum_named(crate::parser::enums_view(enums@), id)),
{
    let ghost views = crate::parser::enums_view(enums@);
    let mut i: usize = 0;
    while i < enums.len()
        invariant
            0 <= i <= enums@.len(),
            views == crate::parser::enums_view(enums@),
            table@.len() == old(table)@.len(),
            forall|k: int| 0 <= k < enums@.len() ==> (#[trigger] enums@[k]).name < table@.len(),
            forall|id: StringId|
                id < table@.len() ==> #[trigger] table@[id as int] == (old(table)@[id as int]
                    || enum_named_below(views, i as int, id)),
        decreases enums@.len() - i,
    {
        let ghost before = table@;
        let name = enums[i].name;
        table.set(name, true);
        proof {
            assert(views[i as int].name == name);
            assert forall|id: StringId| id < table@.len() implies #[trigger] table@[id as int] == (
            old(table)@[id as int] || enum_named_below(views, i + 1, id)) by {
                lemma_enum_named_step(views, i as int, id);
                assert(before[id as int] == (old(table)@[id as int] || enum_named_below(
                    views,
                    i as int,
                    id,
                )));
            }
        }
        i = i + 1;
    }
}

/// Marks what `m` declares in the table.
fn mark_message(table: &mut Vec<bool>, m: &Message)
    requires
        message_ok(m@, old(table)@.len() as int),
    ensures
        final(table)@.len() == old(table)@.len(),
        forall|id: StringId|
            id < old(table)@.len() ==> #[trigger] final(table)@[id as int] == (old(table)@[id as int]
                || declared_in(m@, id)),
    decreases m,
{
    let ghost n = table@.len() as int;
    table.set(m.name, true);
    let ghost named = table@;
    proof {
        assert forall|i: int| 0 <= i < m.enums@.len() implies (#[trigger] m.enums@[i]).name
            < table@.len() by {
            assert(enum_ok(m@.enums[i], n));
        }
    }
    mark_enums(table, &m.enums);
    let ghost with_enums = table@;
    proof {
        let views = crate::parser::messages_view(m.messages@);
        assert(m@.messages == views);
        lemma_messages_view(m.messages@);
        assert forall|i: int| 0 <= i < m.messages@.len() implies message_ok(#[trigger] views[i], n) by {
            assert(message_ok(m@.messages[i], n));
        }
    }
    mark_messages(table, &m.messages);
    proof {
        assert forall|id: StringId| id < old(table)@.len() implies #[trigger] table@[id as int] == (
        old(table)@[id as int] || declared_in(m@, id)) by {
            lemma_declared_in(m@, id);
            assert(named[id as int] == (old(table)@[id as int] || id == m.name));
            assert(with_enums[id as int] == (named[id as int] || enum_named(m@.enums, id)));
        }
    }
}

/// Marks what the messages of a list declare in the table.
fn mark_messages(table: &mut Vec<bool>, ms: &Vec<Message>)
    requires
        forall|i: int|
            0 <= i < ms@.len() ==> message_ok(
                #[trigger] crate::parser::messages_view(ms@)[i],
                old(table)@.len() as int,
            ),
    ensures
        final(table)@.len() == old(table)@.len(),
        forall|id: StringId|
            id < old(table)@.len() ==> #[trigger] final(table)@[id as int] == (old(table)@[id as int]
                || declared_among(crate::parser::messages_view(ms@), ms@.len() as int, id)),
    decreases ms,
{
    let ghost views = crate::parser::messages_view(ms@);
    proof {
        lemma_messages_view(ms@);
    }
    let mut i: usize = 0;
    while i < ms.len()
        invariant
            0 <= i <= ms@.len(),
            views == crate::parser::messages_view(ms@),
            views.len() == ms@.len(),
            table@.len() == old(table)@.len(),
            forall|k: int| 0 <= k < ms@.len() ==> #[trigger] views[k] == ms@[k]@,
            forall|k: int| 0 <= k < ms@.len() ==> message_ok(#[trigger] views[k], table@.len() as int),
            forall|id: StringId|
                id < table@.len() ==> #[trigger] table@[id as int] == (old(table)@[id as int]
                    || declared_among(views, i as int, id)),
        decreases ms@.len() - i,
    {
        let ghost before = table@;
        assert(views[i as int] == ms@[i as int]@);
        mark_message(table, &ms[i]);
        proof {
            assert forall|id: StringId| id < table@.len() implies #[trigger] table@[id as int] == (
            old(table)@[id as int] || declared_among(views, i + 1, id)) by {
                lemma_declared_step(views, i as int, id);
                assert(before[id as int] == (old(table)@[id as int] || declared_among(
                    views,
                    i as int,
                    id,
                )));
            }
        }
        i = i + 1;
    }
}

/// Whether `table` says of every handle whether the tree declares it.
pub open spec fn marks(table: Seq<bool>, tree: ParseTreeView) -> bool {
    &&& table.len() == tree.strings.len()
    &&& forall|id: StringId|
        id < table.len() ==> #[trigger] table[id as int] == is_declared(tree, id)
}

/// The first unresolved field type in `m` and the messages nested in it.
fn find_unresolved(
    intern: &StringIntern,
    table: &Vec<bool>,
    m: &Message,
    Ghost(tree): Ghost<ParseTreeView>,
) -> (res: Option<ParseError>)
    requires
        tree.strings == intern@,
        marks(table@, tree),
        message_ok(m@, intern@.len() as int),
    ensures
        res matches Some(e) ==> unresolved_in(tree, m@) == Some(e@),
        res is None ==> unresolved_in(tree, m@) is None,
    decreases m,
{
    let mut i: usize = 0;
    while i < m.fields.len()
        invariant
            0 <= i <= m.fields@.len(),
            tree.strings == intern@,
            marks(table@, tree),
            message_ok(m@, intern@.len() as int),
            unresolved_field(tree, m@, 0) == unresolved_field(tree, m@, i as int),
        decreases m.fields@.len() - i,
    {
        let f = &m.fields[i];
        assert(field_ok(m@.fields[i as int], intern@.len() as int));
        let target = match f.ftype {
            FieldType::Message(id) => Some(id),
            FieldType::Enum(id) => Some(id),
            _ => None,
        };
        if let Some(id) = target {
            if !table[id] {
                return Some(
                    ParseError {
                        kind: ParseErrorKind::UnresolvedType(text_of(intern, id)),
                        location: member_of(intern, m.name, f.name),
                    },
                );
            }
        }
        i = i + 1;
    }
    proof {
        let views = crate::parser::messages_view(m.messages@);
        assert(m@.messages == views);
        lemma_messages_view(m.messages@);
        assert forall|k: int| 0 <= k < m.messages@.len() implies message_ok(
            #[trigger] views[k],
            intern@.len() as int,
        ) by {
            assert(message_ok(m@.messages[k], intern@.len() as int));
        }
    }
    find_unresolved_among(intern, table, &m.messages, Ghost(tree))
}

/// The first unresolved field type in the messages of a list.
fn find_unresolved_among(
    intern: &StringIntern,
    table: &Vec<bool>,
    ms: &Vec<Message>,
    Ghost(tree): Ghost<ParseTreeView>,
) -> (res: Option<ParseError>)
    requires
        tree.strings == intern@,
        marks(table@, tree),
        forall|i: int|
            0 <= i < ms@.len() ==> message_ok(
                #[trigger] crate::parser::messages_view(ms@)[i],
                intern@.len() as int,
            ),
    ensures
        res matches Some(e) ==> unresolved_among(tree, crate::parser::messages_view(ms@), 0)
            == Some(e@),
        res is None ==> unresolved_among(tree, crate::parser::messages_view(ms@), 0) is None,
    decreases ms,
{
    let ghost views = crate::parser::messages_view(ms@);
    proof {
        lemma_messages_view(ms@);
    }
    let mut i: usize = 0;
    while i < ms.len()
        invariant
            0 <= i <= ms@.len(),
            tree.strings == intern@,
            marks(table@, tree),
            views == crate::parser::messages_view(ms@),
            views.len() == ms@.len(),
            forall|k: int| 0 <= k < ms@.len() ==> #[trigger] views[k] == ms@[k]@,
            forall|k: int| 0 <= k < ms@.len() ==> message_ok(#[trigger] views[k], intern@.len() as int),
            unresolved_among(tree, views, 0) == unresolved_among(tree, views, i as int),
        decreases ms@.len() - i,
    {
        assert(views[i as int] == ms@[i as int]@);
        if let Some(e) = find_unresolved(intern, table, &ms[i], Ghost(tree)) {
            return Some(e);
        }
        i = i + 1;
    }
    None
}

/// The first unresolved argument or return type among the rpcs of `s`.
fn find_unresolved_rpc(
    intern: &StringIntern,
    table: &Vec<bool>,
    s: &Service,
    Ghost(tree): Ghost<ParseTreeView>,
) -> (res: Option<ParseError>)
    requires
        tree.strings == intern@,
        marks(table@, tree),
        service_ok(s@, intern@.len() as int),
    ensures
        res matches Some(e) ==> unresolved_rpc(tree, s@, 0) == Some(e@),
        res is None ==> unresolved_rpc(tree, s@, 0) is None,
{
    let mut i: usize = 0;
    while i < s.rpcs.len()
        invariant
            0 <= i <= s.rpcs@.len(),
            tree.strings == intern@,
            marks(table@, tree),
            service_ok(s@, intern@.len() as int),
            unresolved_rpc(tree, s@, 0) == unresolved_rpc(tree, s@, i as int),
        decreases s.rpcs@.len() - i,
    {
        let r = &s.rpcs[i];
        assert(rpc_ok(s@.rpcs[i as int], intern@.len() as int));
        let missing = if !table[r.arg_type] {
            Some(r.arg_type)
        } else if !table[r.ret_type] {
            Some(r.ret_type)
        } else {
            None
        };
        if let Some(id) = missing {
            return Some(
                ParseError {
                    kind: ParseErrorKind::UnresolvedType(text_of(intern, id)),
                    location: member_of(intern, s.name, r.name),
                },
            );
        }
        i = i + 1;
    }
    None
}

/// A table of `n` entries, none of them marked.
fn unmarked(n: usize) -> (table: Vec<bool>)
    ensures
        table@.len() == n,
        forall|i: int| 0 <= i < n ==> !#[trigger] table@[i],
{
    let mut table: Vec<bool> = Vec::new();
    let mut i: usize = 0;
    while i < n
        invariant
            0 <= i <= n,
            table@.len() == i,
            forall|k: int| 0 <= k < i ==> !#[trigger] table@[k],
        decreases n - i,
    {
        table.push(false);
        i = i + 1;
    }
    table
}

impl ParseTree {
    /// Checks the whole tree and returns the first error, if there is one.
    #[verifier::loop_isolation(false)]
    pub fn validate(&self) -> (res: Result<(), ParseError>)
        requires
            self.wf(),
        ensures
            result_view(res) == validation(self@),
    {
        let ghost tree = self@;
        let n = self.intern.len();
        let mut table = unmarked(n);
        let ghost empty = table@;
        proof {
            lemma_messages_view(self.messages@);
            assert forall|i: int| 0 <= i < self.enums@.len() implies (#[trigger] self.enums@[i]).name
                < n by {
                assert(enum_ok(tree.enums[i], n as int));
            }
        }
        mark_messages(&mut table, &self.messages);
        let ghost with_messages = table@;
        mark_enums(&mut table, &self.enums);
        proof {
            assert forall|id: StringId| id < table@.len() implies #[trigger] table@[id as int]
                == is_declared(tree, id) by {
                assert(!empty[id as int]);
                assert(with_messages[id as int] == (empty[id as int] || declared_among(
                    tree.messages,
                    tree.messages.len() as int,
                    id,
                )));
            }
        }
        if let Some(e) = find_duplicate_among(&self.intern, &self.messages) {
            return Err(e);
        }
        if let Some(e) = find_unresolved_among(&self.intern, &table, &self.messages, Ghost(tree)) {
            return Err(e);
        }
        let mut i: usize = 0;
        while i < self.services.len()
            invariant
                0 <= i <= self.services@.len(),
                tree == self@,
                self.wf(),
                marks(table@, tree),
                unresolved_service(tree, 0) == unresolved_service(tree, i as int),
            decreases self.services@.len() - i,
        {
            assert(tree.services[i as int] == self.services@[i as int]@);
            assert(service_ok(tree.services[i as int], n as int));
            if let Some(e) = find_unresolved_rpc(&self.intern, &table, &self.services[i], Ghost(tree)) {
                return Err(e);
            }
            i = i + 1;
        }
        Ok(())
    }
}

/// Whether `m` is `root` or a message nested in it at any depth.
pub open spec fn within(m: MessageView, root: MessageView) -> bool
    decreases root,
{
    m == root || exists|k: int|
        0 <= k < root.messages.len() && within(m, #[trigger] root.messages[k])
}

/// Whether `m` is a message of the tree, at any depth.
pub open spec fn in_tree(tree: ParseTreeView, m: MessageView) -> bool {
    exists|k: int| 0 <= k < tree.messages.len() && within(m, #[trigger] tree.messages[k])
}

/// Whether the type of a field is a scalar or refers to a declared name.
pub open spec fn field_resolves(tree: ParseTreeView, f: Field) -> bool {
    referenced(f.ftype) matches Some(id) ==> is_declared(tree, id)
}

/// Whether both types of an rpc are declared names.
pub open spec fn rpc_resolves(tree: ParseTreeView, r: Rpc) -> bool {
    is_declared(tree, r.arg_type) && is_declared(tree, r.ret_type)
}

/// Whether every field of `m` resolves.
pub open spec fn fields_resolve(tree: ParseTreeView, m: MessageView) -> bool {
    forall|i: int| 0 <= i < m.fields.len() ==> field_resolves(tree, #[trigger] m.fields[i])
}

/// Whether every rpc of `s` resolves.
pub open spec fn rpcs_resolve(tree: ParseTreeView, s: ServiceView) -> bool {
    forall|i: int| 0 <= i < s.rpcs.len() ==> rpc_resolves(tree, #[trigger] s.rpcs[i])
}

/// What validation asks of a tree: no message at any depth has two fields
/// with one tag, and every type reference of a field or an rpc names a
/// message or an enum declared somewhere in the tree.
pub open spec fn valid(tree: ParseTreeView) -> bool {
    &&& forall|m: MessageView| #[trigger]
        in_tree(tree, m) ==> !has_duplicate_tag(m.fields) && fields_resolve(tree, m)
    &&& forall|k: int|
        0 <= k < tree.services.len() ==> rpcs_resolve(tree, #[trigger] tree.services[k])
}

/// The first repeat at or after `from` stands no later than any repeat
/// from there on.
proof fn lemma_first_repeat_bounds(fields: Seq<Field>, from: int, j: int)
    requires
        0 <= from <= j < fields.len(),
        repeats(fields, j),
    ensures
        from <= first_repeat(fields, from) <= j,
    decreases j - from,
{
    if from < j && !repeats(fields, from) {
        lemma_first_repeat_bounds(fields, from + 1, j);
    }
}

/// A list with a repeated tag has a first repeat, and only such a list.
pub proof fn lemma_repeat_found(fields: Seq<Field>)
    ensures
        has_duplicate_tag(fields) == (first_repeat(fields, 0) < fields.len()),
{
    if has_duplicate_tag(fields) {
        let j = choose|j: int| 0 <= j < fields.len() && #[trigger] repeats(fields, j);
        lemma_first_repeat_bounds(fields, 0, j);
    } else {
        lemma_first_repeat(fields, 0, fields.len() as int);
    }
}

/// A message with a repeated tag in `root` makes the search in `root`
/// find a duplicate.
proof fn lemma_duplicate_found(strings: Seq<Seq<char>>, root: MessageView, m: MessageView)
    requires
        within(m, root),
        has_duplicate_tag(m.fields),
    ensures
        duplicate_in(strings, root) is Some,
    decreases root, 0int,
{
    lemma_repeat_found(root.fields);
    if m != root && !has_duplicate_tag(root.fields) {
        let k = choose|k: int|
            0 <= k < root.messages.len() && within(m, #[trigger] root.messages[k]);
        lemma_duplicate_found_among(strings, root.messages, 0, k, m);
    }
}

/// A message with a repeated tag in one of the messages from `from` on
/// makes the search among them find a duplicate.
proof fn lemma_duplicate_found_among(
    strings: Seq<Seq<char>>,
    ms: Seq<MessageView>,
    from: int,
    k: int,
    m: MessageView,
)
    requires
        0 <= from <= k < ms.len(),
        within(m, ms[k]),
        has_duplicate_tag(m.fields),
    ensures
        duplicate_among(strings, ms, from) is Some,
    decreases ms, k - from,
{
    if from == k {
        lemma_duplicate_found(strings, ms[k], m);
    } else if duplicate_in(strings, ms[from]) is None {
        lemma_duplicate_found_among(strings, ms, from + 1, k, m);
    }
}

/// Where no message in `root` repeats a tag, the search in `root` finds
/// nothing.
proof fn lemma_duplicate_none(strings: Seq<Seq<char>>, root: MessageView)
    requires
        forall|m: MessageView| #[trigger] within(m, root) ==> !has_duplicate_tag(m.fields),
    ensures
        duplicate_in(strings, root) is None,
    decreases root, 0int,
{
    assert(within(root, root));
    lemma_repeat_found(root.fields);
    assert forall|k: int, m: MessageView|
        0 <= k < root.messages.len() && #[trigger] within(
            m,
            root.messages[k],
        ) implies !has_duplicate_tag(m.fields) by {
        assert(within(m, root));
    }
    lemma_duplicate_none_among(strings, root.messages, 0);
}

/// Where no message in the list repeats a tag, the search among them finds
/// nothing.
proof fn lemma_duplicate_none_among(strings: Seq<Seq<char>>, ms: Seq<MessageView>, from: int)
    requires
        0 <= from,
        forall|k: int, m: MessageView|
            0 <= k < ms.len() && #[trigger] within(m, ms[k]) ==> !has_duplicate_tag(m.fields),
    ensures
        duplicate_among(strings, ms, from) is None,
    decreases ms, ms.len() - from,
{
    if from < ms.len() {
        assert forall|m: MessageView| #[trigger] within(m, ms[from]) implies !has_duplicate_tag(
            m.fields,
        ) by {}
        lemma_duplicate_none(strings, ms[from]);
        lemma_duplicate_none_among(strings, ms, from + 1);
    }
}

/// What the search for duplicates finds is a duplicate tag.
proof fn lemma_duplicate_kind(strings: Seq<Seq<char>>, root: MessageView)
    ensures
        duplicate_in(strings, root) matches Some(e) ==> e.kind is DuplicateFieldTag,
    decreases root, 0int,
{
    if first_repeat(root.fields, 0) >= root.fields.len() {
        lemma_duplicate_kind_among(strings, root.messages, 0);
    }
}

/// What the search for duplicates among a list finds is a duplicate tag.
proof fn lemma_duplicate_kind_among(strings: Seq<Seq<char>>, ms: Seq<MessageView>, from: int)
    ensures
        duplicate_among(strings, ms, from) matches Some(e) ==> e.kind is DuplicateFieldTag,
    decreases ms, ms.len() - from,
{
    if 0 <= from < ms.len() {
        lemma_duplicate_kind(strings, ms[from]);
        lemma_duplicate_kind_among(strings, ms, from + 1);
    }
}

/// The search among the fields from `from` on finds nothing exactly where
/// all of them resolve, and what it finds is an unresolved type.
proof fn lemma_unresolved_field(tree: ParseTreeView, m: MessageView, from: int)
    requires
        0 <= from,
    ensures
        unresolved_field(tree, m, from) is None == (forall|i: int|
            from <= i < m.fields.len() ==> field_resolves(tree, #[trigger] m.fields[i])),
        unresolved_field(tree, m, from) matches Some(e) ==> e.kind is UnresolvedType,
    decreases m.fields.len() - from,
{
    if from < m.fields.len() {
        lemma_unresolved_field(tree, m, from + 1);
        if field_resolves(tree, m.fields[from]) {
            assert forall|i: int| from <= i < m.fields.len() && (forall|i: int|
                from + 1 <= i < m.fields.len() ==> field_resolves(
                    tree,
                    #[trigger] m.fields[i],
                )) implies field_resolves(tree, #[trigger] m.fields[i]) by {}
        }
    }
}

/// A message in `root` with a field that does not resolve makes the search
/// in `root` find an unresolved type.
proof fn lemma_unresolved_found(tree: ParseTreeView, root: MessageView, m: MessageView)
    requires
        within(m, root),
        !fields_resolve(tree, m),
    ensures
        unresolved_in(tree, root) is Some,
    decreases root, 0int,
{
    lemma_unresolved_field(tree, root, 0);
    if m != root && unresolved_field(tree, root, 0) is None {
        let k = choose|k: int|
            0 <= k < root.messages.len() && within(m, #[trigger] root.messages[k]);
        lemma_unresolved_found_among(tree, root.messages, 0, k, m);
    }
}

/// A message with a field that does not resolve, in one of the messages
/// from `from` on, makes the search among them find an unresolved type.
proof fn lemma_unresolved_found_among(
    tree: ParseTreeView,
    ms: Seq<MessageView>,
    from: int,
    k: int,
    m: MessageView,
)
    requires
        0 <= from <= k < ms.len(),
        within(m, ms[k]),
        !fields_resolve(tree, m),
    ensures
        unresolved_among(tree, ms, from) is Some,
    decreases ms, k - from,
{
    if from == k {
        lemma_unresolved_found(tree, ms[k], m);
    } else if unresolved_in(tree, ms[from]) is None {
        lemma_unresolved_found_among(tree, ms, from + 1, k, m);
    }
}

/// Where every field of every message in `root` resolves, the search in
/// `root` finds nothing.
proof fn lemma_unresolved_none(tree: ParseTreeView, root: MessageView)
    requires
        forall|m: MessageView| #[trigger] within(m, root) ==> fields_resolve(tree, m),
    ensures
        unresolved_in(tree, root) is None,
    decreases root, 0int,
{
    assert(within(root, root));
    lemma_unresolved_field(tree, root, 0);
    assert forall|k: int, m: MessageView|
        0 <= k < root.messages.len() && #[trigger] within(
            m,
            root.messages[k],
        ) implies fields_resolve(tree, m) by {
        assert(within(m, root));
    }
    lemma_unresolved_none_among(tree, root.messages, 0);
}

/// Where every field of every message in the list resolves, the search
/// among them finds nothing.
proof fn lemma_unresolved_none_among(tree: ParseTreeView, ms: Seq<MessageView>, from: int)
    requires
        0 <= from,
        forall|k: int, m: MessageView|
            0 <= k < ms.len() && #[trigger] within(m, ms[k]) ==> fields_resolve(tree, m),
    ensures
        unresolved_among(tree, ms, from) is None,
    decreases ms, ms.len() - from,
{
    if from < ms.len() {
        assert forall|m: MessageView| #[trigger] within(m, ms[from]) implies fields_resolve(
            tree,
            m,
        ) by {}
        lemma_unresolved_none(tree, ms[from]);
        lemma_unresolved_none_among(tree, ms, from + 1);
    }
}

/// What the search for unresolved field types finds is an unresolved type.
proof fn lemma_unresolved_kind(tree: ParseTreeView, root: MessageView)
    ensures
        unresolved_in(tree, root) matches Some(e) ==> e.kind is UnresolvedType,
    decreases root, 0int,
{
    lemma_unresolved_field(tree, root, 0);
    if unresolved_field(tree, root, 0) is None {
        lemma_unresolved_kind_among(tree, root.messages, 0);
    }
}

/// What the search for unresolved field types among a list finds is an
/// unresolved type.
proof fn lemma_unresolved_kind_among(tree: ParseTreeView, ms: Seq<MessageView>, from: int)
    ensures
        unresolved_among(tree, ms, from) matches Some(e) ==> e.kind is UnresolvedType,
    decreases ms, ms.len() - from,
{
    if 0 <= from < ms.len() {
        lemma_unresolved_kind(tree, ms[from]);
        lemma_unresolved_kind_among(tree, ms, from + 1);
    }
}

/// The search among the rpcs from `from` on finds nothing exactly where all
/// of them resolve, and what it finds is an unresolved type.
proof fn lemma_unresolved_rpc(tree: ParseTreeView, s: ServiceView, from: int)
    requires
        0 <= from,
    ensures
        unresolved_rpc(tree, s, from) is None == (forall|i: int|
            from <= i < s.rpcs.len() ==> rpc_resolves(tree, #[trigger] s.rpcs[i])),
        unresolved_rpc(tree, s, from) matches Some(e) ==> e.kind is UnresolvedType,
    decreases s.rpcs.len() - from,
{
    if from < s.rpcs.len() {
        lemma_unresolved_rpc(tree, s, from + 1);
        if rpc_resolves(tree, s.rpcs[from]) {
            assert forall|i: int| from <= i < s.rpcs.len() && (forall|i: int|
                from + 1 <= i < s.rpcs.len() ==> rpc_resolves(
                    tree,
                    #[trigger] s.rpcs[i],
                )) implies rpc_resolves(tree, #[trigger] s.rpcs[i]) by {}
        }
    }
}

/// The search among the services from `from` on finds nothing exactly
/// where all their rpcs resolve, and what it finds is an unresolved type.
proof fn lemma_unresolved_service(tree: ParseTreeView, from: int)
    requires
        0 <= from,
    ensures
        unresolved_service(tree, from) is None == (forall|k: int|
            from <= k < tree.services.len() ==> rpcs_resolve(tree, #[trigger] tree.services[k])),
        unresolved_service(tree, from) matches Some(e) ==> e.kind is UnresolvedType,
    decreases tree.services.len() - from,
{
    if from < tree.services.len() {
        lemma_unresolved_service(tree, from + 1);
        lemma_unresolved_rpc(tree, tree.services[from], 0);
        if rpcs_resolve(tree, tree.services[from]) {
            assert forall|k: int| from <= k < tree.services.len() && (forall|k: int|
                from + 1 <= k < tree.services.len() ==> rpcs_resolve(
                    tree,
                    #[trigger] tree.services[k],
                )) implies rpcs_resolve(tree, #[trigger] tree.services[k]) by {}
        }
    }
}

/// Validation succeeds on the valid trees and on no others.
pub proof fn lemma_validation_ok_iff_valid(tree: ParseTreeView)
    ensures
        validation(tree) is Ok == valid(tree),
{
    lemma_unresolved_service(tree, 0);
    if valid(tree) {
        assert forall|k: int, m: MessageView|
            0 <= k < tree.messages.len() && #[trigger] within(
                m,
                tree.messages[k],
            ) implies !has_duplicate_tag(m.fields) && fields_resolve(tree, m) by {
            assert(in_tree(tree, m));
        }
        lemma_duplicate_none_among(tree.strings, tree.messages, 0);
        lemma_unresolved_none_among(tree, tree.messages, 0);
    } else {
        if exists|m: MessageView| #[trigger]
            in_tree(tree, m) && !(!has_duplicate_tag(m.fields) && fields_resolve(tree, m)) {
            let m = choose|m: MessageView| #[trigger]
                in_tree(tree, m) && !(!has_duplicate_tag(m.fields) && fields_resolve(tree, m));
            let k = choose|k: int|
                0 <= k < tree.messages.len() && within(m, #[trigger] tree.messages[k]);
            if has_duplicate_tag(m.fields) {
                lemma_duplicate_found_among(tree.strings, tree.messages, 0, k, m);
            } else {
                lemma_unresolved_found_among(tree, tree.messages, 0, k, m);
            }
        }
    }
}

/// A message anywhere in the tree with two fields of one tag makes
/// validation fail with `DuplicateFieldTag`, whatever else the tree holds.
pub proof fn lemma_duplicate_tag_rejected(tree: ParseTreeView, m: MessageView)
    requires
        in_tree(tree, m),
        has_duplicate_tag(m.fields),
    ensures
        validation(tree) matches Err(e) && e.kind is DuplicateFieldTag,
{
    let k = choose|k: int| 0 <= k < tree.messages.len() && within(m, #[trigger] tree.messages[k]);
    lemma_duplicate_found_among(tree.strings, tree.messages, 0, k, m);
    lemma_duplicate_kind_among(tree.strings, tree.messages, 0);
}

/// In a tree without duplicate tags, a field whose type names no declared
/// message or enum makes validation fail with `UnresolvedType`.
pub proof fn lemma_unresolved_type_rejected(tree: ParseTreeView, m: MessageView, i: int)
    requires
        forall|other: MessageView| #[trigger]
            in_tree(tree, other) ==> !has_duplicate_tag(other.fields),
        in_tree(tree, m),
        0 <= i < m.fields.len(),
        !field_resolves(tree, m.fields[i]),
    ensures
        validation(tree) matches Err(e) && e.kind is UnresolvedType,
{
    assert forall|k: int, other: MessageView|
        0 <= k < tree.messages.len() && #[trigger] within(
            other,
            tree.messages[k],
        ) implies !has_duplicate_tag(other.fields) by {
        assert(in_tree(tree, other));
    }
    lemma_duplicate_none_among(tree.strings, tree.messages, 0);
    let k = choose|k: int| 0 <= k < tree.messages.len() && within(m, #[trigger] tree.messages[k]);
    lemma_unresolved_found_among(tree, tree.messages, 0, k, m);
    lemma_unresolved_kind_among(tree, tree.messages, 0);
}

/// In a tree whose messages are valid, an rpc whose argument or return type
/// names no declared message or enum makes validation fail with
/// `UnresolvedType`.
pub proof fn lemma_unresolved_rpc_rejected(tree: ParseTreeView, k: int, i: int)
    requires
        forall|m: MessageView| #[trigger]
            in_tree(tree, m) ==> !has_duplicate_tag(m.fields) && fields_resolve(tree, m),
        0 <= k < tree.services.len(),
        0 <= i < tree.services[k].rpcs.len(),
        !rpc_resolves(tree, tree.services[k].rpcs[i]),
    ensures
        validation(tree) matches Err(e) && e.kind is UnresolvedType,
{
    assert forall|j: int, m: MessageView|
        0 <= j < tree.messages.len() && #[trigger] within(
            m,
            tree.messages[j],
        ) implies !has_duplicate_tag(m.fields) && fields_resolve(tree, m) by {
        assert(in_tree(tree, m));
    }
    lemma_duplicate_none_among(tree.strings, tree.messages, 0);
    lemma_unresolved_none_among(tree, tree.messages, 0);
    lemma_unresolved_service(tree, 0);
    assert(!rpcs_resolve(tree, tree.services[k]));
}

} // verus!
