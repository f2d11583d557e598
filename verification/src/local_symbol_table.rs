//! Local symbol tables: how a struct annotated with `$ion_symbol_table`
//! changes the symbol context.

use crate::ion_parser_types::{field_views, views, IonValue, IonValueView};
use crate::symbol_table::{imported_len, ImportView, SymbolContext, SymbolContextView};
use vstd::prelude::*;

verus! {

/// The value of the first field of that name.
pub open spec fn first_field(fields: Seq<(Seq<char>, IonValueView)>, name: Seq<char>) -> Option<
    IonValueView,
>
    decreases fields.len(),
{
    if fields.len() == 0 {
        None
    } else if fields[0].0 == name {
        Some(fields[0].1)
    } else {
        first_field(fields.drop_first(), name)
    }
}

/// The version that an import names: its `version` field where that is an
/// integer of at least 1, else 1.
pub open spec fn import_version(entry: Seq<(Seq<char>, IonValueView)>) -> u64 {
    match first_field(entry, "version"@) {
        Some(IonValueView::Integer(v)) => if v >= 1 {
            v as u64
        } else {
            1
        },
        _ => 1,
    }
}

/// The number of IDs that an import declares: its `max_id` field where that
/// is an integer that is not negative.
pub open spec fn import_max_id(entry: Seq<(Seq<char>, IonValueView)>) -> Option<u64> {
    match first_field(entry, "max_id"@) {
        Some(IonValueView::Integer(v)) => if v >= 0 {
            Some(v as u64)
        } else {
            None
        },
        _ => None,
    }
}

/// The context with the import that an entry of an `imports` list declares:
/// a struct whose `name` field is a string. Any other entry declares nothing.
pub open spec fn with_import_entry(ctx: SymbolContextView, entry: IonValueView)
    -> SymbolContextView {
    match entry {
        IonValueView::Struct(fields) => match first_field(fields, "name"@) {
            Some(IonValueView::String(name)) => ctx.with_import(
                name,
                import_version(fields),
                import_max_id(fields),
            ),
            _ => ctx,
        },
        _ => ctx,
    }
}

/// The context with the imports that the entries declare, in their order.
pub open spec fn with_import_entries(ctx: SymbolContextView, entries: Seq<IonValueView>)
    -> SymbolContextView
    decreases entries.len(),
{
    if entries.len() == 0 {
        ctx
    } else {
        with_import_entries(with_import_entry(ctx, entries[0]), entries.drop_first())
    }
}

/// The slot that an entry of a `symbols` list fills: its text where it is a
/// string, and a slot without text where it is anything else.
pub open spec fn local_slot(item: IonValueView) -> Option<Seq<char>> {
    match item {
        IonValueView::String(text) => Some(text),
        _ => None,
    }
}

/// The slots that the entries of a `symbols` list fill, in their order.
pub open spec fn local_slots(items: Seq<IonValueView>) -> Seq<Option<Seq<char>>> {
    Seq::new(items.len(), |i: int| local_slot(items[i]))
}

/// The context after a local symbol table with these fields. Where its
/// `imports` field is the symbol `$ion_symbol_table`, the context stays as it
/// is; else only the system symbols stay, and where `imports` is a list, its
/// entries are imported. Then the entries of the `symbols` list, where there
/// is one, become local symbols.
pub open spec fn local_table_applied(
    ctx: SymbolContextView,
    fields: Seq<(Seq<char>, IonValueView)>,
) -> SymbolContextView {
    let base = match first_field(fields, "imports"@) {
        Some(IonValueView::Symbol(text)) => if text == "$ion_symbol_table"@ {
            ctx
        } else {
            ctx.reset()
        },
        Some(IonValueView::List(entries)) => with_import_entries(ctx.reset(), entries),
        _ => ctx.reset(),
    };
    match first_field(fields, "symbols"@) {
        Some(IonValueView::List(items)) => base.with_locals(local_slots(items)),
        _ => base,
    }
}

/// A local symbol table that keeps the context, as its `imports` field is the
/// symbol `$ion_symbol_table`, leaves every ID that had a slot with the text it
/// had. The entries of its `symbols` list take the IDs after the greatest one
/// in their order, each with its text where it is a string, and the ID after
/// the last of them has no text.
pub proof fn lemma_appended_symbols(
    ctx: SymbolContextView,
    fields: Seq<(Seq<char>, IonValueView)>,
    items: Seq<IonValueView>,
)
    requires
        first_field(fields, "imports"@) == Some(IonValueView::Symbol("$ion_symbol_table"@)),
        first_field(fields, "symbols"@) == Some(IonValueView::List(items)),
    ensures
        forall|id: nat|
            id <= ctx.max_id() ==> #[trigger] local_table_applied(ctx, fields).symbol(id)
                == ctx.symbol(id),
        forall|i: int|
            0 <= i < items.len() ==> #[trigger] local_table_applied(ctx, fields).symbol(
                (ctx.max_id() + 1 + i) as nat,
            ) == local_slot(items[i]),
        local_table_applied(ctx, fields).symbol((ctx.max_id() + items.len() + 1) as nat) is None,
{
}

/// A local symbol table without an `imports` field drops what the context
/// held but the system symbols: the entries of its `symbols` list take the IDs
/// from 10 on.
pub proof fn lemma_replacing_symbols(
    ctx: SymbolContextView,
    fields: Seq<(Seq<char>, IonValueView)>,
    items: Seq<IonValueView>,
)
    requires
        first_field(fields, "imports"@) is None,
        first_field(fields, "symbols"@) == Some(IonValueView::List(items)),
    ensures
        forall|id: nat|
            id <= 9 ==> #[trigger] local_table_applied(ctx, fields).symbol(id) == ctx.symbol(id),
        forall|i: int|
            0 <= i < items.len() ==> #[trigger] local_table_applied(ctx, fields).symbol(
                (10 + i) as nat,
            ) == local_slot(items[i]),
        local_table_applied(ctx, fields).symbol((10 + items.len()) as nat) is None,
{
    assert(imported_len(Seq::<ImportView>::empty()) == 0);
}

/// The value of the first field of that name.
fn find_field<'a>(fields: &'a Vec<(String, IonValue)>, name: &String) -> (r: Option<&'a IonValue>)
    ensures
        r matches Some(v) ==> first_field(field_views(fields@), name@) == Some(v@),
        r is None ==> first_field(field_views(fields@), name@) is None,
{
    let ghost all = field_views(fields@);
    let mut i: usize = 0;
    assert(all.skip(0) =~= all);
    while i < fields.len()
        invariant
            all == field_views(fields@),
            i <= fields.len(),
            first_field(all, name@) == first_field(all.skip(i as int), name@),
        decreases fields.len() - i,
    {
        proof {
            assert(all.skip(i as int)[0] == all[i as int]);
            assert(all.skip(i as int).drop_first() =~= all.skip(i + 1));
        }
        if fields[i].0 == *name {
            return Some(&fields[i].1);
        }
        i += 1;
    }
    None
}

/// Adds the import that an entry of an `imports` list declares.
fn add_import_entry(context: &mut SymbolContext, entry: &IonValue)
    ensures
        final(context)@ == with_import_entry(old(context)@, entry@),
{
    if let IonValue::Struct(fields) = entry {
        assert(entry@->Struct_0 =~= field_views(fields@));
        let name_key = "name".to_owned();
        let version_key = "version".to_owned();
        let max_id_key = "max_id".to_owned();
        if let Some(IonValue::String(name)) = find_field(fields, &name_key) {
            let version: u64 = match find_field(fields, &version_key) {
                Some(IonValue::Integer(v)) => if *v >= 1 {
                    *v as u64
                } else {
                    1
                },
                _ => 1,
            };
            let max_id: Option<u64> = match find_field(fields, &max_id_key) {
                Some(IonValue::Integer(v)) => if *v >= 0 {
                    Some(*v as u64)
                } else {
                    None
                },
                _ => None,
            };
            context.add_import(name, version, max_id);
        }
    }
}

/// Changes the context as a local symbol table with these fields says.
pub fn apply_local_table(context: &mut SymbolContext, fields: &Vec<(String, IonValue)>)
    ensures
        final(context)@ == local_table_applied(old(context)@, field_views(fields@)),
{
    let imports_key = "imports".to_owned();
    let symbols_key = "symbols".to_owned();
    let marker = "$ion_symbol_table".to_owned();
    match find_field(fields, &imports_key) {
        Some(IonValue::Symbol(text)) => {
            if !(*text == marker) {
                context.reset();
            }
        },
        Some(IonValue::List(entries)) => {
            context.reset();
            let ghost all = views(entries@);
            let ghost start = context@;
            assert(IonValue::List(*entries)@->List_0 =~= all);
            assert(all.skip(0) =~= all);
            let mut i: usize = 0;
            while i < entries.len()
                invariant
                    all == views(entries@),
                    i <= entries.len(),
                    with_import_entries(start, all) == with_import_entries(
                        context@,
                        all.skip(i as int),
                    ),
                decreases entries.len() - i,
            {
                proof {
                    assert(all.skip(i as int)[0] == entries@[i as int]@);
                    assert(all.skip(i as int).drop_first() =~= all.skip(i + 1));
                }
                add_import_entry(context, &entries[i]);
                i += 1;
            }
        },
        _ => {
            context.reset();
        },
    }
    if let Some(IonValue::List(items)) = find_field(fields, &symbols_key) {
        let ghost all = local_slots(views(items@));
        let ghost base = context@;
        assert(IonValue::List(*items)@->List_0 =~= views(items@));
        assert(base.with_locals(all.take(0)) == base) by {
            assert(base.locals + all.take(0) =~= base.locals);
        }
        let mut i: usize = 0;
        while i < items.len()
            invariant
                all == local_slots(views(items@)),
                i <= items.len(),
                context@ == base.with_locals(all.take(i as int)),
            decreases items.len() - i,
        {
            let slot = match &items[i] {
                IonValue::String(text) => Some(text.clone()),
                _ => None,
            };
            proof {
                assert(all[i as int] == local_slot(items@[i as int]@));
                assert(base.locals + all.take(i + 1) =~= (base.locals + all.take(i as int)).push(
                    all[i as int],
                ));
            }
            context.add_local(slot);
            i += 1;
        }
        assert(all.take(items.len() as int) =~= all);
    }
}

} // verus!
