//! The symbol table: per-module records of declared items, imports and
//! inherent-method blocks, keyed by module path for the whole package.
//!
//! Each executable type has a ghost mirror (`ItemV`, `ModuleV`, ...) over
//! `Seq` and `Seq<char>`; contracts speak of those mirrors.

use vstd::prelude::*;

use crate::paths::ModulePath;
use crate::paths::Vis;

verus! {

/// What kind of declaration an indexed item is.
#[derive(Clone, Copy, PartialEq, Eq, Structural, Debug)]
pub enum ItemKind {
    Struct,
    Enum,
    Trait,
    Function,
    TypeAlias,
    Const,
    Static,
    Macro,
    Module,
}

/// A named field of a record type.
pub struct FieldInfo {
    pub name: String,
    pub vis: Vis,
}

/// Ghost mirror of `FieldInfo`.
#[verifier::ext_equal]
pub struct FieldV {
    pub name: Seq<char>,
    pub vis: Vis,
}

impl DeepView for FieldInfo {
    type V = FieldV;

    open spec fn deep_view(&self) -> FieldV {
        FieldV { name: self.name@, vis: self.vis }
    }
}

impl View for FieldInfo {
    type V = FieldV;

    open spec fn view(&self) -> FieldV {
        self.deep_view()
    }
}

/// A variant of a sum type.
pub struct VariantInfo {
    pub name: String,
    pub field_count: usize,
    pub is_named_fields: bool,
    pub fields: Vec<FieldInfo>,
}

/// Ghost mirror of `VariantInfo`.
#[verifier::ext_equal]
pub struct VariantV {
    pub name: Seq<char>,
    pub field_count: usize,
    pub is_named_fields: bool,
    pub fields: Seq<FieldV>,
}

impl DeepView for VariantInfo {
    type V = VariantV;

    open spec fn deep_view(&self) -> VariantV {
        VariantV {
            name: self.name@,
            field_count: self.field_count,
            is_named_fields: self.is_named_fields,
            fields: self.fields.deep_view(),
        }
    }
}

impl View for VariantInfo {
    type V = VariantV;

    open spec fn view(&self) -> VariantV {
        self.deep_view()
    }
}

/// One declared item of a module.
pub struct ItemInfo {
    pub name: String,
    pub kind: ItemKind,
    pub vis: Vis,
    /// The path of the module that declares the item.
    pub module: ModulePath,
    /// Declared fields, for record types.
    pub fields: Vec<FieldInfo>,
    /// Declared variants, for sum types.
    pub variants: Vec<VariantInfo>,
    /// Declared parameter count, for functions only.
    pub param_count: Option<usize>,
}

/// Ghost mirror of `ItemInfo`.
#[verifier::ext_equal]
pub struct ItemV {
    pub name: Seq<char>,
    pub kind: ItemKind,
    pub vis: Vis,
    pub module: Seq<Seq<char>>,
    pub fields: Seq<FieldV>,
    pub variants: Seq<VariantV>,
    pub param_count: Option<usize>,
}

impl DeepView for ItemInfo {
    type V = ItemV;

    open spec fn deep_view(&self) -> ItemV {
        ItemV {
            name: self.name@,
            kind: self.kind,
            vis: self.vis,
            module: self.module@,
            fields: self.fields.deep_view(),
            variants: self.variants.deep_view(),
            param_count: self.param_count,
        }
    }
}

impl View for ItemInfo {
    type V = ItemV;

    open spec fn view(&self) -> ItemV {
        self.deep_view()
    }
}

/// One import declaration of a module.
pub struct UseInfo {
    /// The full imported path, as written.
    pub path: Vec<String>,
    /// The name the import binds (the leaf, or its rename).
    pub alias: String,
    /// Whether this is a wildcard import.
    pub is_glob: bool,
    /// The import's own visibility, for re-exports.
    pub vis: Vis,
}

/// Ghost mirror of `UseInfo`.
#[verifier::ext_equal]
pub struct UseV {
    pub path: Seq<Seq<char>>,
    pub alias: Seq<char>,
    pub is_glob: bool,
    pub vis: Vis,
}

impl DeepView for UseInfo {
    type V = UseV;

    open spec fn deep_view(&self) -> UseV {
        UseV {
            path: self.path.deep_view(),
            alias: self.alias@,
            is_glob: self.is_glob,
            vis: self.vis,
        }
    }
}

impl View for UseInfo {
    type V = UseV;

    open spec fn view(&self) -> UseV {
        self.deep_view()
    }
}

/// A method of an inherent impl block.
pub struct MethodInfo {
    pub name: String,
    pub vis: Vis,
    /// Parameter count, the receiver excluded.
    pub param_count: usize,
    pub has_self: bool,
}

/// Ghost mirror of `MethodInfo`.
#[verifier::ext_equal]
pub struct MethodV {
    pub name: Seq<char>,
    pub vis: Vis,
    pub param_count: usize,
    pub has_self: bool,
}

impl DeepView for MethodInfo {
    type V = MethodV;

    open spec fn deep_view(&self) -> MethodV {
        MethodV {
            name: self.name@,
            vis: self.vis,
            param_count: self.param_count,
            has_self: self.has_self,
        }
    }
}

impl View for MethodInfo {
    type V = MethodV;

    open spec fn view(&self) -> MethodV {
        self.deep_view()
    }
}

/// An inherent impl block: the bare type name it is for, and its methods.
pub struct ImplInfo {
    pub owner_type: String,
    pub methods: Vec<MethodInfo>,
}

/// Ghost mirror of `ImplInfo`.
#[verifier::ext_equal]
pub struct ImplV {
    pub owner_type: Seq<char>,
    pub methods: Seq<MethodV>,
}

impl DeepView for ImplInfo {
    type V = ImplV;

    open spec fn deep_view(&self) -> ImplV {
        ImplV { owner_type: self.owner_type@, methods: self.methods.deep_view() }
    }
}

impl View for ImplInfo {
    type V = ImplV;

    open spec fn view(&self) -> ImplV {
        self.deep_view()
    }
}

/// Everything indexed for a single module.
pub struct ModuleInfo {
    pub items: Vec<ItemInfo>,
    pub uses: Vec<UseInfo>,
    pub impls: Vec<ImplInfo>,
    /// The source file that the module was read from.
    pub file_path: String,
    /// The names of the child modules it declares.
    pub child_modules: Vec<String>,
}

/// Ghost mirror of `ModuleInfo`.
#[verifier::ext_equal]
pub struct ModuleV {
    pub items: Seq<ItemV>,
    pub uses: Seq<UseV>,
    pub impls: Seq<ImplV>,
    pub file_path: Seq<char>,
    pub child_modules: Seq<Seq<char>>,
}

impl DeepView for ModuleInfo {
    type V = ModuleV;

    open spec fn deep_view(&self) -> ModuleV {
        ModuleV {
            items: self.items.deep_view(),
            uses: self.uses.deep_view(),
            impls: self.impls.deep_view(),
            file_path: self.file_path@,
            child_modules: self.child_modules.deep_view(),
        }
    }
}

impl View for ModuleInfo {
    type V = ModuleV;

    open spec fn view(&self) -> ModuleV {
        self.deep_view()
    }
}

/// The ghost mirror of the whole table: module records in insertion
/// order, each under its path.
pub type TableV = Seq<(Seq<Seq<char>>, ModuleV)>;

/// The package-wide symbol table, keyed by module path. Later insertions
/// of an already-present path replace the earlier record.
pub struct SymbolTable {
    pub modules: Vec<(ModulePath, ModuleInfo)>,
}

impl View for SymbolTable {
    type V = TableV;

    open spec fn view(&self) -> TableV {
        self.modules.deep_view()
    }
}

/// The record stored under `key`: the first entry with that path.
pub open spec fn spec_lookup(t: TableV, key: Seq<Seq<char>>) -> Option<ModuleV>
    decreases t.len(),
{
    if t.len() == 0 {
        Option::None
    } else if t[0].0 == key {
        Option::Some(t[0].1)
    } else {
        spec_lookup(t.drop_first(), key)
    }
}

/// The table after storing `value` under `key`: the first entry with that
/// path is replaced, or a new entry is appended.
pub open spec fn spec_insert(t: TableV, key: Seq<Seq<char>>, value: ModuleV) -> TableV
    decreases t.len(),
{
    if t.len() == 0 {
        seq![(key, value)]
    } else if t[0].0 == key {
        seq![(key, value)] + t.drop_first()
    } else {
        seq![t[0]] + spec_insert(t.drop_first(), key, value)
    }
}

/// Skipping entries whose path is not `key` leaves the lookup unchanged.
pub proof fn lemma_lookup_skip(t: TableV, key: Seq<Seq<char>>, i: int)
    requires
        0 <= i <= t.len(),
        forall|j: int| 0 <= j < i ==> t[j].0 != key,
    ensures
        spec_lookup(t, key) == spec_lookup(t.skip(i), key),
    decreases i,
{
    if i > 0 {
        lemma_lookup_skip(t.drop_first(), key, i - 1);
        assert(t.drop_first().skip(i - 1) =~= t.skip(i));
    } else {
        assert(t.skip(0) =~= t);
    }
}

/// What `spec_insert` produces, entry by entry: an in-place replacement
/// when the key is already present at first position `i`.
pub proof fn lemma_insert_replaces(t: TableV, key: Seq<Seq<char>>, value: ModuleV, i: int)
    requires
        0 <= i < t.len(),
        t[i].0 == key,
        forall|j: int| 0 <= j < i ==> t[j].0 != key,
    ensures
        spec_insert(t, key, value) == t.update(i, (key, value)),
    decreases i,
{
    if i == 0 {
        assert(spec_insert(t, key, value) =~= t.update(0, (key, value)));
    } else {
        lemma_insert_replaces(t.drop_first(), key, value, i - 1);
        assert(seq![t[0]] + t.drop_first().update(i - 1, (key, value)) =~= t.update(
            i,
            (key, value),
        ));
    }
}

/// What `spec_insert` produces when the key is absent: an appended entry.
pub proof fn lemma_insert_appends(t: TableV, key: Seq<Seq<char>>, value: ModuleV)
    requires
        forall|j: int| 0 <= j < t.len() ==> t[j].0 != key,
    ensures
        spec_insert(t, key, value) == t.push((key, value)),
    decreases t.len(),
{
    if t.len() == 0 {
        assert(spec_insert(t, key, value) =~= t.push((key, value)));
    } else {
        lemma_insert_appends(t.drop_first(), key, value);
        assert(seq![t[0]] + t.drop_first().push((key, value)) =~= t.push((key, value)));
    }
}

/// The items of `items` named `name`, in order.
pub open spec fn filter_items_named(items: Seq<ItemV>, name: Seq<char>) -> Seq<ItemV>
    decreases items.len(),
{
    if items.len() == 0 {
        Seq::empty()
    } else {
        filter_items_named(items.drop_last(), name) + if items.last().name == name {
            seq![items.last()]
        } else {
            Seq::empty()
        }
    }
}

/// Every item named `name` anywhere in the table, in table order.
pub open spec fn spec_find_item(t: TableV, name: Seq<char>) -> Seq<ItemV>
    decreases t.len(),
{
    if t.len() == 0 {
        Seq::empty()
    } else {
        spec_find_item(t.drop_last(), name) + filter_items_named(t.last().1.items, name)
    }
}

/// The first item of `items` named `name`.
pub open spec fn first_item_named(items: Seq<ItemV>, name: Seq<char>) -> Option<ItemV>
    decreases items.len(),
{
    if items.len() == 0 {
        Option::None
    } else if items[0].name == name {
        Option::Some(items[0])
    } else {
        first_item_named(items.drop_first(), name)
    }
}

/// Skipping items not named `name` leaves the first match unchanged.
pub proof fn lemma_first_item_skip(items: Seq<ItemV>, name: Seq<char>, i: int)
    requires
        0 <= i <= items.len(),
        forall|j: int| 0 <= j < i ==> items[j].name != name,
    ensures
        first_item_named(items, name) == first_item_named(items.skip(i), name),
    decreases i,
{
    if i > 0 {
        lemma_first_item_skip(items.drop_first(), name, i - 1);
        assert(items.drop_first().skip(i - 1) =~= items.skip(i));
    } else {
        assert(items.skip(0) =~= items);
    }
}

/// The methods that the impl blocks `impls` declare for `ty_name`,
/// paired with the module path `owner`, in order.
pub open spec fn methods_for_type(
    owner: Seq<Seq<char>>,
    impls: Seq<ImplV>,
    ty_name: Seq<char>,
) -> Seq<(Seq<Seq<char>>, MethodV)>
    decreases impls.len(),
{
    if impls.len() == 0 {
        Seq::empty()
    } else {
        methods_for_type(owner, impls.drop_last(), ty_name) + if impls.last().owner_type
            == ty_name {
            impls.last().methods.map_values(|m: MethodV| (owner, m))
        } else {
            Seq::empty()
        }
    }
}

/// Every inherent method declared for `ty_name` anywhere in the table,
/// paired with its module's path, in table order.
pub open spec fn spec_find_methods(t: TableV, ty_name: Seq<char>) -> Seq<
    (Seq<Seq<char>>, MethodV),
>
    decreases t.len(),
{
    if t.len() == 0 {
        Seq::empty()
    } else {
        spec_find_methods(t.drop_last(), ty_name) + methods_for_type(
            t.last().0,
            t.last().1.impls,
            ty_name,
        )
    }
}

impl SymbolTable {
    /// An empty table.
    pub fn new() -> (r: SymbolTable)
        ensures
            r@ =~= Seq::<(Seq<Seq<char>>, ModuleV)>::empty(),
    {
        SymbolTable { modules: Vec::new() }
    }

    /// The index of the first entry under `key`, if any.
    fn position_of(&self, key: &ModulePath) -> (r: Option<usize>)
        ensures
            match r {
                Option::Some(i) => i < self@.len() && self@[i as int].0 == key@ && forall|j: int|
                    0 <= j < i ==> self@[j].0 != key@,
                Option::None => forall|j: int| 0 <= j < self@.len() ==> self@[j].0 != key@,
            },
    {
        let mut i: usize = 0;
        while i < self.modules.len()
            invariant
                i <= self.modules.len(),
                forall|j: int| 0 <= j < i ==> self@[j].0 != key@,
            decreases self.modules.len() - i,
        {
            if self.modules[i].0.path_eq(key) {
                proof {
                    assert(self@[i as int].0 == self.modules@[i as int].0@);
                }
                return Option::Some(i);
            }
            proof {
                assert(self@[i as int].0 == self.modules@[i as int].0@);
            }
            i += 1;
        }
        Option::None
    }

    /// Whether the table holds a module under `key`.
    pub fn contains_key(&self, key: &ModulePath) -> (r: bool)
        ensures
            r == (spec_lookup(self@, key@) is Some),
    {
        let pos = self.position_of(key);
        proof {
            match pos {
                Option::Some(i) => {
                    lemma_lookup_skip(self@, key@, i as int);
                    assert(self@.skip(i as int)[0] == self@[i as int]);
                },
                Option::None => {
                    lemma_lookup_skip(self@, key@, self@.len() as int);
                    assert(self@.skip(self@.len() as int).len() == 0);
                },
            }
        }
        pos.is_some()
    }

    /// The module record under `key`, if any.
    pub fn get(&self, key: &ModulePath) -> (r: Option<&ModuleInfo>)
        ensures
            match r {
                Option::Some(m) => spec_lookup(self@, key@) == Option::Some(m.deep_view()),
                Option::None => spec_lookup(self@, key@) is None,
            },
    {
        let pos = self.position_of(key);
        match pos {
            Option::Some(i) => {
                proof {
                    lemma_lookup_skip(self@, key@, i as int);
                    assert(self@.skip(i as int)[0] == self@[i as int]);
                    assert(self@[i as int].1 == self.modules@[i as int].1.deep_view());
                }
                Option::Some(&self.modules[i].1)
            },
            Option::None => {
                proof {
                    lemma_lookup_skip(self@, key@, self@.len() as int);
                }
                Option::None
            },
        }
    }

    /// Store `value` under `key`, replacing an earlier record of the same
    /// path if one is there.
    pub fn insert(&mut self, key: ModulePath, value: ModuleInfo)
        ensures
            final(self)@ == spec_insert(old(self)@, key@, value.deep_view()),
    {
        let ghost t = self@;
        let ghost kv = key@;
        let ghost vv = value.deep_view();
        let pos = self.position_of(&key);
        match pos {
            Option::Some(i) => {
                proof {
                    lemma_insert_replaces(t, kv, vv, i as int);
                }
                self.modules.remove(i);
                self.modules.insert(i, (key, value));
                proof {
                    assert forall|j: int| 0 <= j < self@.len() implies self@[j] == t.update(
                        i as int,
                        (kv, vv),
                    )[j] by {
                        if j < i {
                            assert(self.modules@[j] == old(self).modules@[j]);
                        } else if j == i {
                        } else {
                            assert(self.modules@[j] == old(self).modules@[j]);
                        }
                    }
                    assert(self@ =~= t.update(i as int, (kv, vv)));
                }
            },
            Option::None => {
                proof {
                    lemma_insert_appends(t, kv, vv);
                }
                self.modules.push((key, value));
                proof {
                    assert forall|j: int| 0 <= j < self@.len() implies self@[j] == t.push(
                        (kv, vv),
                    )[j] by {
                        if j < t.len() {
                            assert(self.modules@[j] == old(self).modules@[j]);
                        }
                    }
                    assert(self@ =~= t.push((kv, vv)));
                }
            },
        }
    }

    /// Every item of the package named `name`, in table order.
    pub fn find_item(&self, name: &str) -> (r: Vec<&ItemInfo>)
        ensures
            r.deep_view() == spec_find_item(self@, name@),
    {
        let mut r: Vec<&ItemInfo> = Vec::new();
        let mut i: usize = 0;
        while i < self.modules.len()
            invariant
                i <= self.modules.len(),
                r.deep_view() =~= spec_find_item(self@.take(i as int), name@),
            decreases self.modules.len() - i,
        {
            let module_info = &self.modules[i].1;
            let mut k: usize = 0;
            while k < module_info.items.len()
                invariant
                    i < self.modules.len(),
                    k <= module_info.items.len(),
                    module_info == &self.modules@[i as int].1,
                    r.deep_view() =~= spec_find_item(self@.take(i as int), name@)
                        + filter_items_named(
                        module_info.items.deep_view().take(k as int),
                        name@,
                    ),
                decreases module_info.items.len() - k,
            {
                let ghost prefix = module_info.items.deep_view().take(k as int);
                let ghost next = module_info.items.deep_view().take(k + 1);
                proof {
                    assert(next.drop_last() =~= prefix);
                    assert(next.last() == module_info.items@[k as int].deep_view());
                }
                if crate::paths::str_eq_str(&module_info.items[k].name, name) {
                    let ghost r0 = r;
                    r.push(&module_info.items[k]);
                    proof {
                        crate::paths::lemma_deep_push(r0, r);
                        assert(r.deep_view() =~= spec_find_item(self@.take(i as int), name@)
                            + filter_items_named(next, name@));
                    }
                } else {
                    proof {
                        assert(filter_items_named(next, name@) =~= filter_items_named(
                            prefix,
                            name@,
                        ));
                    }
                }
                k += 1;
            }
            proof {
                let t1 = self@.take(i + 1);
                assert(t1.drop_last() =~= self@.take(i as int));
                assert(t1.last() == self@[i as int]);
                assert(self@[i as int].1.items =~= module_info.items.deep_view());
                assert(module_info.items.deep_view().take(
                    module_info.items.deep_view().len() as int,
                ) =~= module_info.items.deep_view());
                assert(r.deep_view() =~= spec_find_item(self@.take(i + 1), name@));
            }
            i += 1;
        }
        proof {
            assert(self@.take(self@.len() as int) =~= self@);
        }
        r
    }

    /// The first item named `name` in the module under `module`, if any.
    pub fn find_in_module(&self, module: &ModulePath, name: &str) -> (r: Option<&ItemInfo>)
        ensures
            match r {
                Option::Some(it) => match spec_lookup(self@, module@) {
                    Option::Some(m) => first_item_named(m.items, name@) == Option::Some(
                        it.deep_view(),
                    ),
                    Option::None => false,
                },
                Option::None => match spec_lookup(self@, module@) {
                    Option::Some(m) => first_item_named(m.items, name@) is None,
                    Option::None => true,
                },
            },
    {
        let module_info = match self.get(module) {
            Option::Some(m) => m,
            Option::None => {
                return Option::None;
            },
        };
        let ghost items = module_info.deep_view().items;
        let mut k: usize = 0;
        while k < module_info.items.len()
            invariant
                spec_lookup(self@, module@) == Option::Some(module_info.deep_view()),
                items == module_info.deep_view().items,
                k <= module_info.items.len(),
                forall|j: int| 0 <= j < k ==> items[j].name != name@,
            decreases module_info.items.len() - k,
        {
            proof {
                assert(items[k as int] == module_info.items@[k as int].deep_view());
            }
            if crate::paths::str_eq_str(&module_info.items[k].name, name) {
                proof {
                    lemma_first_item_skip(items, name@, k as int);
                    assert(items.skip(k as int)[0] == items[k as int]);
                }
                return Option::Some(&module_info.items[k]);
            }
            k += 1;
        }
        proof {
            lemma_first_item_skip(items, name@, items.len() as int);
        }
        Option::None
    }

    /// Every inherent method declared for `ty_name` anywhere in the
    /// package, paired with its module's path, in table order.
    pub fn find_methods(&self, ty_name: &str) -> (r: Vec<(&ModulePath, &MethodInfo)>)
        ensures
            r.deep_view() == spec_find_methods(self@, ty_name@),
    {
        let mut r: Vec<(&ModulePath, &MethodInfo)> = Vec::new();
        let mut i: usize = 0;
        while i < self.modules.len()
            invariant
                i <= self.modules.len(),
                r.deep_view() =~= spec_find_methods(self@.take(i as int), ty_name@),
            decreases self.modules.len() - i,
        {
            let entry_path = &self.modules[i].0;
            let module_info = &self.modules[i].1;
            let ghost owner = self@[i as int].0;
            let ghost impls = self@[i as int].1.impls;
            let mut k: usize = 0;
            while k < module_info.impls.len()
                invariant
                    i < self.modules.len(),
                    k <= module_info.impls.len(),
                    entry_path == &self.modules@[i as int].0,
                    module_info == &self.modules@[i as int].1,
                    owner == self@[i as int].0,
                    impls == self@[i as int].1.impls,
                    r.deep_view() =~= spec_find_methods(self@.take(i as int), ty_name@)
                        + methods_for_type(owner, impls.take(k as int), ty_name@),
                decreases module_info.impls.len() - k,
            {
                let ghost prefix = impls.take(k as int);
                let ghost next = impls.take(k + 1);
                proof {
                    assert(next.drop_last() =~= prefix);
                    assert(next.last() == module_info.impls@[k as int].deep_view());
                }
                let impl_info = &module_info.impls[k];
                if crate::paths::str_eq_str(&impl_info.owner_type, ty_name) {
                    let ghost methods = impl_info.deep_view().methods;
                    let mut m: usize = 0;
                    while m < impl_info.methods.len()
                        invariant
                            i < self.modules.len(),
                            k < module_info.impls.len(),
                            entry_path == &self.modules@[i as int].0,
                            module_info == &self.modules@[i as int].1,
                            impl_info == &module_info.impls@[k as int],
                            owner == self@[i as int].0,
                            impls == self@[i as int].1.impls,
                            methods == impl_info.deep_view().methods,
                            m <= impl_info.methods.len(),
                            r.deep_view() =~= spec_find_methods(self@.take(i as int), ty_name@)
                                + methods_for_type(owner, impls.take(k as int), ty_name@)
                                + methods.map_values(|mv: MethodV| (owner, mv)).take(m as int),
                        decreases impl_info.methods.len() - m,
                    {
                        let ghost r0 = r;
                        r.push((entry_path, &impl_info.methods[m]));
                        proof {
                            crate::paths::lemma_deep_push(r0, r);
                            let mapped = methods.map_values(|mv: MethodV| (owner, mv));
                            assert(mapped.take(m + 1).drop_last() =~= mapped.take(m as int));
                            assert(mapped[m as int] == (owner,
                            impl_info.methods@[m as int].deep_view()));
                            assert(r.deep_view() =~= spec_find_methods(
                                self@.take(i as int),
                                ty_name@,
                            ) + methods_for_type(owner, impls.take(k as int), ty_name@)
                                + mapped.take(m + 1));
                        }
                        m += 1;
                    }
                    proof {
                        let mapped = methods.map_values(|mv: MethodV| (owner, mv));
                        assert(mapped.take(mapped.len() as int) =~= mapped);
                        assert(methods =~= next.last().methods);
                        assert(methods_for_type(owner, next, ty_name@) =~= methods_for_type(
                            owner,
                            prefix,
                            ty_name@,
                        ) + mapped);
                        assert(r.deep_view() =~= spec_find_methods(self@.take(i as int), ty_name@)
                            + methods_for_type(owner, next, ty_name@));
                    }
                } else {
                    proof {
                        assert(methods_for_type(owner, next, ty_name@) =~= methods_for_type(
                            owner,
                            prefix,
                            ty_name@,
                        ));
                    }
                }
                k += 1;
            }
            proof {
                let t1 = self@.take(i + 1);
                assert(t1.drop_last() =~= self@.take(i as int));
                assert(t1.last() == self@[i as int]);
                assert(impls.take(impls.len() as int) =~= impls);
                assert(r.deep_view() =~= spec_find_methods(self@.take(i + 1), ty_name@));
            }
            i += 1;
        }
        proof {
            assert(self@.take(self@.len() as int) =~= self@);
        }
        r
    }
}

} // verus!
