//! The symbol context: which text each symbol ID stands for. IDs 1 to 9 are
//! the system symbols; the IDs of the imported tables follow in the order of
//! the imports, and the local symbols come last.

use crate::ion_parser_types::{clone_strings, texts};
use vstd::prelude::*;

verus! {

/// The greatest ID of a system symbol.
pub const SYSTEM_MAX_ID: u64 = 9;

/// The text of a system symbol.
pub open spec fn system_symbol(id: nat) -> Option<Seq<char>> {
    if id == 1 {
        Some("$ion"@)
    } else if id == 2 {
        Some("$ion_1_0"@)
    } else if id == 3 {
        Some("$ion_symbol_table"@)
    } else if id == 4 {
        Some("name"@)
    } else if id == 5 {
        Some("version"@)
    } else if id == 6 {
        Some("imports"@)
    } else if id == 7 {
        Some("symbols"@)
    } else if id == 8 {
        Some("max_id"@)
    } else if id == 9 {
        Some("$ion_shared_symbol_table"@)
    } else {
        None
    }
}

/// The model of a shared table that the context knows.
pub struct SharedTableView {
    pub name: Seq<char>,
    pub version: u64,
    pub symbols: Seq<Seq<char>>,
}

/// The model of an import: the number of IDs it takes, and the texts of the
/// first of them, as far as the context knows the table.
pub struct ImportView {
    pub max_id: nat,
    pub names: Seq<Seq<char>>,
}

/// The model of a symbol context.
pub struct SymbolContextView {
    pub shared: Seq<SharedTableView>,
    pub imports: Seq<ImportView>,
    pub locals: Seq<Option<Seq<char>>>,
}

/// The number of IDs that the imports take.
pub open spec fn imported_len(imports: Seq<ImportView>) -> nat
    decreases imports.len(),
{
    if imports.len() == 0 {
        0
    } else {
        imports[0].max_id + imported_len(imports.drop_first())
    }
}

/// The text of the imported symbol that is `offset` IDs after the system
/// symbols.
pub open spec fn imported_symbol(imports: Seq<ImportView>, offset: nat) -> Option<Seq<char>>
    decreases imports.len(),
{
    if imports.len() == 0 {
        None
    } else if offset < imports[0].max_id {
        if offset < imports[0].names.len() {
            Some(imports[0].names[offset as int])
        } else {
            None
        }
    } else {
        imported_symbol(imports.drop_first(), (offset - imports[0].max_id) as nat)
    }
}

/// The first shared table of that name and version.
pub open spec fn find_shared(shared: Seq<SharedTableView>, name: Seq<char>, version: u64) -> Option<
    int,
> {
    if exists|i: int|
        0 <= i < shared.len() && shared[i].name == name && shared[i].version == version {
        Some(first_shared(shared, name, version, 0))
    } else {
        None
    }
}

/// The index of the first shared table of that name and version at or after
/// `from`.
pub open spec fn first_shared(
    shared: Seq<SharedTableView>,
    name: Seq<char>,
    version: u64,
    from: int,
) -> int
    decreases shared.len() - from,
{
    if from < 0 || from >= shared.len() {
        from
    } else if shared[from].name == name && shared[from].version == version {
        from
    } else {
        first_shared(shared, name, version, from + 1)
    }
}

impl SymbolContextView {
    /// The greatest ID that has a slot.
    pub open spec fn max_id(self) -> nat {
        9 + imported_len(self.imports) + self.locals.len()
    }

    /// The text of a symbol ID; `None` for the ID 0, for an ID past the last
    /// slot, and for a slot whose text is not known.
    pub open spec fn symbol(self, id: nat) -> Option<Seq<char>> {
        if id <= 9 {
            system_symbol(id)
        } else if id - 10 < imported_len(self.imports) {
            imported_symbol(self.imports, (id - 10) as nat)
        } else if id - 10 - imported_len(self.imports) < self.locals.len() {
            self.locals[id - 10 - imported_len(self.imports)]
        } else {
            None
        }
    }

    /// The context with only the system symbols.
    pub open spec fn reset(self) -> SymbolContextView {
        SymbolContextView { shared: self.shared, imports: Seq::empty(), locals: Seq::empty() }
    }

    /// The context with one more local slot.
    pub open spec fn with_local(self, name: Option<Seq<char>>) -> SymbolContextView {
        SymbolContextView { locals: self.locals.push(name), ..self }
    }

    /// The context with more local slots.
    pub open spec fn with_locals(self, names: Seq<Option<Seq<char>>>) -> SymbolContextView {
        SymbolContextView { locals: self.locals + names, ..self }
    }

    /// The number of IDs that an import of this table takes: what the import
    /// declares, else the size of the table where it is known, else none.
    pub open spec fn import_size(self, name: Seq<char>, version: u64, max_id: Option<u64>) -> nat {
        match max_id {
            Some(n) => n as nat,
            None => match find_shared(self.shared, name, version) {
                Some(i) => self.shared[i].symbols.len(),
                None => 0,
            },
        }
    }

    /// The context with one more import, behind the others. Its slots have
    /// the texts of the shared table of that name and version, where the
    /// context knows one.
    pub open spec fn with_import(self, name: Seq<char>, version: u64, max_id: Option<u64>)
        -> SymbolContextView {
        let names = match find_shared(self.shared, name, version) {
            Some(i) => self.shared[i].symbols,
            None => Seq::empty(),
        };
        SymbolContextView {
            imports: self.imports.push(
                ImportView { max_id: self.import_size(name, version, max_id), names },
            ),
            ..self
        }
    }

    /// The context that knows one more shared table.
    pub open spec fn with_shared(self, table: SharedTableView) -> SymbolContextView {
        SymbolContextView { shared: self.shared.push(table), ..self }
    }
}

/// An ID past the last slot has no text.
pub proof fn lemma_symbol_beyond_max(c: SymbolContextView, id: nat)
    requires
        id > c.max_id(),
    ensures
        c.symbol(id) is None,
{
}

/// Symbols never rewrite existing IDs: more local symbols leave every ID that
/// had a slot with the text it had.
pub proof fn lemma_locals_keep_ids(c: SymbolContextView, names: Seq<Option<Seq<char>>>, id: nat)
    requires
        id <= c.max_id(),
    ensures
        c.with_locals(names).symbol(id) == c.symbol(id),
{
}

/// New local symbols take the IDs after the greatest one in the order in which
/// they are given, and the ID after the last of them has no text.
pub proof fn lemma_locals_take_next_ids(c: SymbolContextView, names: Seq<Option<Seq<char>>>, i: int)
    requires
        0 <= i < names.len(),
    ensures
        c.with_locals(names).symbol((c.max_id() + 1 + i) as nat) == names[i],
        c.with_locals(names).max_id() == c.max_id() + names.len(),
        c.with_locals(names).symbol((c.max_id() + names.len() + 1) as nat) is None,
{
}

/// A shared symbol table that a context can import from.
#[derive(Debug, PartialEq, Eq)]
pub struct SharedTable {
    pub name: String,
    pub version: u64,
    pub symbols: Vec<String>,
}

impl View for SharedTable {
    type V = SharedTableView;

    open spec fn view(&self) -> SharedTableView {
        SharedTableView { name: self.name@, version: self.version, symbols: texts(self.symbols@) }
    }
}

impl Clone for SharedTable {
    fn clone(&self) -> (r: Self)
        ensures
            r@ == self@,
    {
        SharedTable {
            name: self.name.clone(),
            version: self.version,
            symbols: clone_strings(&self.symbols),
        }
    }
}

/// An import of a context: the number of IDs it takes, and the texts of the
/// first of them, as far as the context knew the table.
#[derive(Debug, PartialEq, Eq)]
pub struct Import {
    max_id: u64,
    names: Vec<String>,
}

impl View for Import {
    type V = ImportView;

    closed spec fn view(&self) -> ImportView {
        ImportView { max_id: self.max_id as nat, names: texts(self.names@) }
    }
}

impl Clone for Import {
    fn clone(&self) -> (r: Self)
        ensures
            r@ == self@,
    {
        Import { max_id: self.max_id, names: clone_strings(&self.names) }
    }
}

/// The symbol context of a stream.
#[derive(Debug, PartialEq, Eq)]
pub struct SymbolContext {
    shared: Vec<SharedTable>,
    imports: Vec<Import>,
    locals: Vec<Option<String>>,
}

/// The texts of a list of local slots.
pub open spec fn slot_texts(slots: Seq<Option<String>>) -> Seq<Option<Seq<char>>> {
    Seq::new(
        slots.len(),
        |i: int|
            match slots[i] {
                Some(s) => Some(s@),
                None => None,
            },
    )
}

impl View for SymbolContext {
    type V = SymbolContextView;

    closed spec fn view(&self) -> SymbolContextView {
        SymbolContextView {
            shared: Seq::new(self.shared@.len(), |i: int| self.shared@[i]@),
            imports: Seq::new(self.imports@.len(), |i: int| self.imports@[i]@),
            locals: slot_texts(self.locals@),
        }
    }
}

/// The text of a system symbol.
fn system_symbol_text(id: u64) -> (r: Option<String>)
    ensures
        r matches Some(s) ==> system_symbol(id as nat) == Some(s@),
        r is None ==> system_symbol(id as nat) is None,
{
    if id == 1 {
        Some("$ion".to_owned())
    } else if id == 2 {
        Some("$ion_1_0".to_owned())
    } else if id == 3 {
        Some("$ion_symbol_table".to_owned())
    } else if id == 4 {
        Some("name".to_owned())
    } else if id == 5 {
        Some("version".to_owned())
    } else if id == 6 {
        Some("imports".to_owned())
    } else if id == 7 {
        Some("symbols".to_owned())
    } else if id == 8 {
        Some("max_id".to_owned())
    } else if id == 9 {
        Some("$ion_shared_symbol_table".to_owned())
    } else {
        None
    }
}

proof fn lemma_imported_symbol_skip(imports: Seq<ImportView>, k: int, offset: nat, rest: nat)
    requires
        0 <= k <= imports.len(),
        offset == imported_len(imports.take(k)) + rest,
    ensures
        imported_symbol(imports, offset) == imported_symbol(imports.skip(k), rest),
        imported_len(imports) == imported_len(imports.take(k)) + imported_len(imports.skip(k)),
    decreases k,
{
    if k == 0 {
        assert(imports.skip(0) =~= imports);
        assert(imports.take(0).len() == 0);
    } else {
        let tail = imports.drop_first();
        assert(imports.take(k).drop_first() =~= tail.take(k - 1));
        assert(imports.take(k)[0] == imports[0]);
        assert(tail.skip(k - 1) =~= imports.skip(k));
        lemma_imported_symbol_skip(tail, k - 1, (offset - imports[0].max_id) as nat, rest);
    }
}

proof fn lemma_imported_len_push(imports: Seq<ImportView>, last: ImportView)
    ensures
        imported_len(imports.push(last)) == imported_len(imports) + last.max_id,
    decreases imports.len(),
{
    let all = imports.push(last);
    assert(imported_len(all) == all[0].max_id + imported_len(all.drop_first()));
    if imports.len() == 0 {
        assert(all.drop_first().len() == 0);
        assert(imported_len(all.drop_first()) == 0);
        assert(all[0] == last);
    } else {
        assert(all[0] == imports[0]);
        assert(all.drop_first() =~= imports.drop_first().push(last));
        lemma_imported_len_push(imports.drop_first(), last);
    }
}

impl SymbolContext {
    /// A context with only the system symbols, which knows no shared table.
    pub fn new() -> (r: SymbolContext)
        ensures
            r@ == (SymbolContextView {
                shared: Seq::empty(),
                imports: Seq::empty(),
                locals: Seq::empty(),
            }),
    {
        let r = SymbolContext { shared: Vec::new(), imports: Vec::new(), locals: Vec::new() };
        assert(r@.shared =~= Seq::empty() && r@.imports =~= Seq::empty() && r@.locals
            =~= Seq::empty());
        r
    }

    /// The text of a symbol ID.
    pub fn resolve(&self, id: u64) -> (r: Option<String>)
        ensures
            r matches Some(s) ==> self@.symbol(id as nat) == Some(s@),
            r is None ==> self@.symbol(id as nat) is None,
    {
        if id <= SYSTEM_MAX_ID {
            return system_symbol_text(id);
        }
        let ghost imports = self@.imports;
        let mut rest: u64 = id - 10;
        let mut k: usize = 0;
        proof {
            assert(imports.take(0).len() == 0);
        }
        while k < self.imports.len()
            invariant
                imports == self@.imports,
                imports.len() == self.imports@.len(),
                k <= self.imports.len(),
                id - 10 == imported_len(imports.take(k as int)) + rest,
            decreases self.imports.len() - k,
        {
            let import = &self.imports[k];
            proof {
                assert(imports[k as int] == import@);
                lemma_imported_symbol_skip(imports, k as int, (id - 10) as nat, rest as nat);
                let tail = imports.skip(k as int);
                assert(tail[0] == imports[k as int]);
                assert(imports.take(k + 1).drop_last() =~= imports.take(k as int));
                lemma_imported_len_push(imports.take(k as int), imports[k as int]);
                assert(imports.take(k + 1) =~= imports.take(k as int).push(imports[k as int]));
            }
            if rest < import.max_id {
                return if rest < import.names.len() as u64 {
                    Some(import.names[rest as usize].clone())
                } else {
                    None
                };
            }
            rest = rest - import.max_id;
            k += 1;
        }
        proof {
            lemma_imported_symbol_skip(imports, k as int, (id - 10) as nat, rest as nat);
            assert(imports.take(k as int) =~= imports);
        }
        if rest < self.locals.len() as u64 {
            match &self.locals[rest as usize] {
                Some(s) => Some(s.clone()),
                None => None,
            }
        } else {
            None
        }
    }

    /// The greatest ID that has a slot, where it fits in 64 bits.
    pub fn max_id(&self) -> (r: Option<u64>)
        ensures
            r matches Some(n) ==> n == self@.max_id(),
            r is None ==> self@.max_id() > u64::MAX,
    {
        let ghost imports = self@.imports;
        let mut total: u64 = SYSTEM_MAX_ID;
        let mut k: usize = 0;
        proof {
            assert(imports.take(0).len() == 0);
        }
        while k < self.imports.len()
            invariant
                imports == self@.imports,
                imports.len() == self.imports@.len(),
                k <= self.imports.len(),
                total == 9 + imported_len(imports.take(k as int)),
            decreases self.imports.len() - k,
        {
            proof {
                assert(imports[k as int] == self.imports@[k as int]@);
                lemma_imported_len_push(imports.take(k as int), imports[k as int]);
                assert(imports.take(k + 1) =~= imports.take(k as int).push(imports[k as int]));
                let so_far = imported_len(imports.take(k + 1));
                lemma_imported_symbol_skip(imports, k + 1, so_far, 0);
            }
            total = match total.checked_add(self.imports[k].max_id) {
                None => {
                    return None;
                },
                Some(sum) => sum,
            };
            k += 1;
        }
        proof {
            assert(imports.take(k as int) =~= imports);
        }
        if self.locals.len() as u64 > u64::MAX - total {
            None
        } else {
            Some(total + self.locals.len() as u64)
        }
    }

    /// Drops the imports and the local symbols.
    pub fn reset(&mut self)
        ensures
            final(self)@ == old(self)@.reset(),
    {
        self.imports = Vec::new();
        self.locals = Vec::new();
        assert(self@.imports =~= Seq::empty() && self@.locals =~= Seq::empty());
        assert(self@.shared =~= old(self)@.shared);
    }

    /// Gives the next local ID this text, or no text.
    pub fn add_local(&mut self, name: Option<String>)
        ensures
            final(self)@ == old(self)@.with_local(
                match name {
                    Some(s) => Some(s@),
                    None => None,
                },
            ),
    {
        self.locals.push(name);
        assert(self@.locals =~= old(self)@.locals.push(
            match name {
                Some(s) => Some(s@),
                None => None,
            },
        ));
        assert(self@.imports =~= old(self)@.imports);
        assert(self@.shared =~= old(self)@.shared);
    }

    /// The index of the first shared table of that name and version.
    fn find(&self, name: &String, version: u64) -> (r: Option<usize>)
        ensures
            r matches Some(i) ==> find_shared(self@.shared, name@, version) == Some(i as int) && i
                < self.shared@.len(),
            r is None ==> find_shared(self@.shared, name@, version) is None,
    {
        let ghost shared = self@.shared;
        let mut i: usize = 0;
        while i < self.shared.len()
            invariant
                shared == self@.shared,
                shared.len() == self.shared@.len(),
                i <= self.shared.len(),
                forall|j: int|
                    0 <= j < i ==> !(shared[j].name == name@ && shared[j].version == version),
                first_shared(shared, name@, version, 0) == first_shared(
                    shared,
                    name@,
                    version,
                    i as int,
                ),
            decreases self.shared.len() - i,
        {
            assert(shared[i as int] == self.shared@[i as int]@);
            if self.shared[i].version == version && self.shared[i].name == *name {
                return Some(i);
            }
            i += 1;
        }
        None
    }

    /// Adds an import behind the others. It takes `max_id` IDs, or, where
    /// none is given, as many as the shared table of that name and version
    /// has, where the context knows one.
    pub fn add_import(&mut self, name: &String, version: u64, max_id: Option<u64>)
        ensures
            final(self)@ == old(self)@.with_import(name@, version, max_id),
    {
        let names: Vec<String> = match self.find(name, version) {
            Some(t) => {
                assert(self@.shared[t as int] == self.shared@[t as int]@);
                clone_strings(&self.shared[t].symbols)
            },
            None => Vec::new(),
        };
        assert(texts(Seq::<String>::empty()) =~= Seq::<Seq<char>>::empty());
        let size: u64 = match max_id {
            Some(n) => n,
            None => names.len() as u64,
        };
        self.imports.push(Import { max_id: size, names });
        assert(self@.imports =~= old(self)@.with_import(name@, version, max_id).imports);
        assert(self@.shared =~= old(self)@.shared);
        assert(self@.locals =~= old(self)@.locals);
    }

    /// Makes a shared table known to the context, for later imports.
    pub fn add_shared_table(&mut self, table: SharedTable)
        ensures
            final(self)@ == old(self)@.with_shared(table@),
    {
        self.shared.push(table);
        assert(self@.shared =~= old(self)@.shared.push(table@));
        assert(self@.imports =~= old(self)@.imports);
        assert(self@.locals =~= old(self)@.locals);
    }
}

impl Clone for SymbolContext {
    fn clone(&self) -> (r: Self)
        ensures
            r@ == self@,
    {
        let mut shared: Vec<SharedTable> = Vec::new();
        let mut i: usize = 0;
        while i < self.shared.len()
            invariant
                i <= self.shared.len(),
                shared@.len() == i,
                forall|j: int| 0 <= j < i ==> shared@[j]@ == self.shared@[j]@,
            decreases self.shared.len() - i,
        {
            shared.push(self.shared[i].clone());
            i += 1;
        }
        let mut imports: Vec<Import> = Vec::new();
        let mut i: usize = 0;
        while i < self.imports.len()
            invariant
                i <= self.imports.len(),
                imports@.len() == i,
                forall|j: int| 0 <= j < i ==> imports@[j]@ == self.imports@[j]@,
            decreases self.imports.len() - i,
        {
            imports.push(self.imports[i].clone());
            i += 1;
        }
        let mut locals: Vec<Option<String>> = Vec::new();
        let mut i: usize = 0;
        while i < self.locals.len()
            invariant
                i <= self.locals.len(),
                locals@.len() == i,
                forall|j: int| 0 <= j < i ==> locals@[j] == self.locals@[j],
            decreases self.locals.len() - i,
        {
            let slot = match &self.locals[i] {
                Some(s) => Some(s.clone()),
                None => None,
            };
            locals.push(slot);
            i += 1;
        }
        let r = SymbolContext { shared, imports, locals };
        assert(r@.shared =~= self@.shared);
        assert(r@.imports =~= self@.imports);
        assert(r@.locals =~= self@.locals);
        r
    }
}

} // verus!
