//! The symbol indexer: turns one file's syntax model into the module
//! record the symbol table stores.
//!
//! Indexing is a pure function of the tree. Inline sub-modules are
//! recursed into and their items, imports and impl blocks are merged
//! into the surrounding file's record, under the child module's path;
//! declaration kinds the model does not cover are ignored silently.

use vstd::prelude::*;

use crate::ast::AstField;
use crate::ast::AstItem;
use crate::ast::AstMethod;
use crate::ast::AstVariant;
use crate::ast::FileAst;
use crate::ast::UseTree;
use crate::paths::clone_strings;
use crate::paths::lemma_deep_push;
use crate::paths::ModulePath;
use crate::paths::Vis;
use crate::symbols::FieldInfo;
use crate::symbols::FieldV;
use crate::symbols::ImplInfo;
use crate::symbols::ImplV;
use crate::symbols::ItemInfo;
use crate::symbols::ItemKind;
use crate::symbols::ItemV;
use crate::symbols::MethodInfo;
use crate::symbols::MethodV;
use crate::symbols::ModuleInfo;
use crate::symbols::UseInfo;
use crate::symbols::UseV;
use crate::symbols::VariantInfo;
use crate::symbols::VariantV;

verus! {

/// The field records a declaration's field list indexes to.
pub open spec fn fields_view(fields: Seq<AstField>) -> Seq<FieldV> {
    fields.map_values(|f: AstField| FieldV { name: f.name@, vis: f.vis })
}

/// The variant records a sum-type declaration indexes to.
pub open spec fn variants_view(variants: Seq<AstVariant>) -> Seq<VariantV> {
    variants.map_values(
        |v: AstVariant| VariantV {
            name: v.name@,
            field_count: v.field_count,
            is_named_fields: v.is_named_fields,
            fields: fields_view(v.fields@),
        },
    )
}

/// The method records an impl block indexes to.
pub open spec fn methods_view(methods: Seq<AstMethod>) -> Seq<MethodV> {
    methods.map_values(
        |m: AstMethod| MethodV {
            name: m.name@,
            vis: m.vis,
            param_count: m.param_count,
            has_self: m.has_self,
        },
    )
}

/// An item record with no fields, variants or parameter count.
pub open spec fn plain_item(
    name: Seq<char>,
    kind: ItemKind,
    vis: Vis,
    module: Seq<Seq<char>>,
) -> ItemV {
    ItemV {
        name,
        kind,
        vis,
        module,
        fields: Seq::empty(),
        variants: Seq::empty(),
        param_count: Option::None,
    }
}

/// The item records that one declaration contributes, in order. An
/// inline module contributes its own record and then, recursively, its
/// body's records under the child path.
pub open spec fn spec_item_entries(item: AstItem, module: Seq<Seq<char>>) -> Seq<ItemV>
    decreases item,
{
    match item {
        AstItem::StructDecl { name, vis, fields } => seq![
            ItemV {
                name: name@,
                kind: ItemKind::Struct,
                vis: vis,
                module: module,
                fields: fields_view(fields@),
                variants: Seq::empty(),
                param_count: Option::None,
            },
        ],
        AstItem::EnumDecl { name, vis, variants } => seq![
            ItemV {
                name: name@,
                kind: ItemKind::Enum,
                vis: vis,
                module: module,
                fields: Seq::empty(),
                variants: variants_view(variants@),
                param_count: Option::None,
            },
        ],
        AstItem::TraitDecl { name, vis } => seq![plain_item(name@, ItemKind::Trait, vis, module)],
        AstItem::FnDecl { name, vis, param_count } => seq![
            ItemV {
                name: name@,
                kind: ItemKind::Function,
                vis: vis,
                module: module,
                fields: Seq::empty(),
                variants: Seq::empty(),
                param_count: Option::Some(param_count),
            },
        ],
        AstItem::TypeAliasDecl { name, vis } => seq![
            plain_item(name@, ItemKind::TypeAlias, vis, module),
        ],
        AstItem::ConstDecl { name, vis } => seq![plain_item(name@, ItemKind::Const, vis, module)],
        AstItem::StaticDecl { name, vis } => seq![plain_item(name@, ItemKind::Static, vis, module)],
        AstItem::ModDecl { name, vis, body, .. } => match body {
            Option::None => seq![plain_item(name@, ItemKind::Module, vis, module)],
            Option::Some(b) => seq![plain_item(name@, ItemKind::Module, vis, module)]
                + spec_index_items(b@, module.push(name@)),
        },
        AstItem::UseDecl { .. } => Seq::empty(),
        AstItem::ImplDecl { .. } => Seq::empty(),
        AstItem::MacroDecl { name } => match name {
            Option::Some(n) => seq![plain_item(n@, ItemKind::Macro, Vis::Private, module)],
            Option::None => Seq::empty(),
        },
        AstItem::OtherItem => Seq::empty(),
    }
}

/// The item records of a declaration list, in order.
pub open spec fn spec_index_items(items: Seq<AstItem>, module: Seq<Seq<char>>) -> Seq<ItemV>
    decreases items,
{
    if items.len() == 0 {
        Seq::empty()
    } else {
        spec_index_items(items.drop_last(), module) + spec_item_entries(items.last(), module)
    }
}

/// The import records one use tree contributes under `prefix`, in
/// leaf order.
pub open spec fn spec_flatten_tree(tree: UseTree, prefix: Seq<Seq<char>>, vis: Vis) -> Seq<UseV>
    decreases tree,
{
    match tree {
        UseTree::Prefix { segment, rest } => spec_flatten_tree(*rest, prefix.push(segment@), vis),
        UseTree::Leaf { ident, .. } => seq![
            UseV { path: prefix.push(ident@), alias: ident@, is_glob: false, vis: vis },
        ],
        UseTree::RenameLeaf { ident, alias, .. } => seq![
            UseV { path: prefix.push(ident@), alias: alias@, is_glob: false, vis: vis },
        ],
        UseTree::Glob => seq![UseV { path: prefix, alias: Seq::empty(), is_glob: true, vis: vis }],
        UseTree::Group { trees } => spec_flatten_trees(trees@, prefix, vis),
    }
}

/// The import records of a group of subtrees, in order.
pub open spec fn spec_flatten_trees(trees: Seq<UseTree>, prefix: Seq<Seq<char>>, vis: Vis) -> Seq<
    UseV,
>
    decreases trees,
{
    if trees.len() == 0 {
        Seq::empty()
    } else {
        spec_flatten_trees(trees.drop_last(), prefix, vis) + spec_flatten_tree(
            trees.last(),
            prefix,
            vis,
        )
    }
}

/// The import records a declaration list contributes, inline modules
/// included.
pub open spec fn spec_index_uses(items: Seq<AstItem>) -> Seq<UseV>
    decreases items,
{
    if items.len() == 0 {
        Seq::empty()
    } else {
        spec_index_uses(items.drop_last()) + spec_use_entries(items.last())
    }
}

/// The import records of one declaration.
pub open spec fn spec_use_entries(item: AstItem) -> Seq<UseV>
    decreases item,
{
    match item {
        AstItem::UseDecl { tree, vis, .. } => spec_flatten_tree(tree, Seq::empty(), vis),
        AstItem::ModDecl { body: Option::Some(b), .. } => spec_index_uses(b@),
        _ => Seq::empty(),
    }
}

/// The impl records a declaration list contributes, inline modules
/// included. Interface implementations and impls whose type the parser
/// gave no bare name for are skipped.
pub open spec fn spec_index_impls(items: Seq<AstItem>) -> Seq<ImplV>
    decreases items,
{
    if items.len() == 0 {
        Seq::empty()
    } else {
        spec_index_impls(items.drop_last()) + spec_impl_entries(items.last())
    }
}

/// The impl records of one declaration.
pub open spec fn spec_impl_entries(item: AstItem) -> Seq<ImplV>
    decreases item,
{
    match item {
        AstItem::ImplDecl { self_ty, is_trait_impl, methods } => if !is_trait_impl {
            match self_ty {
                Option::Some(n) => seq![
                    ImplV { owner_type: n@, methods: methods_view(methods@) },
                ],
                Option::None => Seq::empty(),
            }
        } else {
            Seq::empty()
        },
        AstItem::ModDecl { body: Option::Some(b), .. } => spec_index_impls(b@),
        _ => Seq::empty(),
    }
}

/// The names of the child modules a declaration list declares, at its
/// own level only.
pub open spec fn spec_child_modules(items: Seq<AstItem>) -> Seq<Seq<char>>
    decreases items.len(),
{
    if items.len() == 0 {
        Seq::empty()
    } else {
        spec_child_modules(items.drop_last()) + match items.last() {
            AstItem::ModDecl { name, .. } => seq![name@],
            _ => Seq::empty(),
        }
    }
}

/// Append the import records of `tree` under `prefix` to `out`.
fn flatten_use_tree(tree: &UseTree, prefix: &Vec<String>, vis: Vis, out: &mut Vec<UseInfo>)
    ensures
        final(out).deep_view() == old(out).deep_view() + spec_flatten_tree(
            *tree,
            prefix.deep_view(),
            vis,
        ),
    decreases *tree,
{
    match tree {
        UseTree::Prefix { segment, rest } => {
            let mut p2 = clone_strings(prefix);
            let ghost p2_before = p2;
            p2.push(segment.clone());
            proof {
                lemma_deep_push(p2_before, p2);
                assert(p2.deep_view() =~= prefix.deep_view().push(segment@));
            }
            flatten_use_tree(&**rest, &p2, vis, out);
        },
        UseTree::Leaf { ident, .. } => {
            let mut path = clone_strings(prefix);
            let ghost path_before = path;
            path.push(ident.clone());
            proof {
                lemma_deep_push(path_before, path);
            }
            let ghost path0 = path;
            let alias = ident.clone();
            let ghost out0: Vec<UseInfo> = *out;
            out.push(UseInfo { path, alias, is_glob: false, vis });
            proof {
                lemma_deep_push(out0, *out);
                assert(path0.deep_view() =~= prefix.deep_view().push(ident@));
                assert(out.deep_view() =~~= old(out).deep_view() + spec_flatten_tree(
                    *tree,
                    prefix.deep_view(),
                    vis,
                ));
            }
        },
        UseTree::RenameLeaf { ident, alias, .. } => {
            let mut path = clone_strings(prefix);
            let ghost path_before = path;
            path.push(ident.clone());
            proof {
                lemma_deep_push(path_before, path);
            }
            let ghost path0 = path;
            let bound = alias.clone();
            let ghost out0: Vec<UseInfo> = *out;
            out.push(UseInfo { path, alias: bound, is_glob: false, vis });
            proof {
                lemma_deep_push(out0, *out);
                assert(path0.deep_view() =~= prefix.deep_view().push(ident@));
                assert(out.deep_view() =~~= old(out).deep_view() + spec_flatten_tree(
                    *tree,
                    prefix.deep_view(),
                    vis,
                ));
            }
        },
        UseTree::Glob => {
            let path = clone_strings(prefix);
            let ghost out0: Vec<UseInfo> = *out;
            out.push(UseInfo { path, alias: String::new(), is_glob: true, vis });
            proof {
                lemma_deep_push(out0, *out);
                assert(out.deep_view() =~~= old(out).deep_view() + spec_flatten_tree(
                    *tree,
                    prefix.deep_view(),
                    vis,
                ));
            }
        },
        UseTree::Group { trees } => {
            let ghost out_base = out.deep_view();
            let mut i: usize = 0;
            while i < trees.len()
                invariant
                    i <= trees@.len(),
                    *tree == (UseTree::Group { trees: *trees }),
                    out.deep_view() =~= out_base + spec_flatten_trees(
                        trees@.take(i as int),
                        prefix.deep_view(),
                        vis,
                    ),
                decreases trees@.len() - i,
            {
                proof {
                    assert(decreases_to!(*tree => tree->trees));
                    assert(decreases_to!(*tree => tree->trees@[i as int]));
                }
                flatten_use_tree(&trees[i], prefix, vis, out);
                proof {
                    let t1 = trees@.take(i + 1);
                    assert(t1.drop_last() =~= trees@.take(i as int));
                    assert(t1.last() == trees@[i as int]);
                }
                i += 1;
            }
            proof {
                assert(trees@.take(trees@.len() as int) =~= trees@);
            }
        },
    }
}

/// Append everything the declarations `items` contribute to `info`:
/// item records under `mod_path`, import and impl records, and, at
/// the file's own level only, declared child-module names.
fn index_items_into(
    items: &Vec<AstItem>,
    mod_path: &ModulePath,
    top_level: bool,
    info: &mut ModuleInfo,
)
    ensures
        final(info).deep_view().items == old(info).deep_view().items + spec_index_items(
            items@,
            mod_path@,
        ),
        final(info).deep_view().uses == old(info).deep_view().uses + spec_index_uses(items@),
        final(info).deep_view().impls == old(info).deep_view().impls + spec_index_impls(items@),
        final(info).deep_view().child_modules == old(info).deep_view().child_modules + if top_level {
            spec_child_modules(items@)
        } else {
            Seq::<Seq<char>>::empty()
        },
        final(info).deep_view().file_path == old(info).deep_view().file_path,
    decreases items@,
{
    let ghost items0 = old(info).deep_view().items;
    let ghost uses0 = old(info).deep_view().uses;
    let ghost impls0 = old(info).deep_view().impls;
    let ghost children0 = old(info).deep_view().child_modules;
    let mut i: usize = 0;
    while i < items.len()
        invariant
            i <= items@.len(),
            info.deep_view().items =~= items0 + spec_index_items(
                items@.take(i as int),
                mod_path@,
            ),
            info.deep_view().uses =~= uses0 + spec_index_uses(items@.take(i as int)),
            info.deep_view().impls =~= impls0 + spec_index_impls(items@.take(i as int)),
            info.deep_view().child_modules =~= children0 + if top_level {
                spec_child_modules(items@.take(i as int))
            } else {
                Seq::<Seq<char>>::empty()
            },
            info.deep_view().file_path == old(info).deep_view().file_path,
        decreases items@.len() - i,
    {
        proof {
            let t1 = items@.take(i + 1);
            assert(t1.drop_last() =~= items@.take(i as int));
            assert(t1.last() == items@[i as int]);
        }
        index_one_item(&items[i], mod_path, top_level, info);
        i += 1;
    }
    proof {
        assert(items@.take(items@.len() as int) =~= items@);
    }
}

/// Append what one declaration contributes to `info`.
fn index_one_item(item: &AstItem, mod_path: &ModulePath, top_level: bool, info: &mut ModuleInfo)
    ensures
        final(info).deep_view().items == old(info).deep_view().items + spec_item_entries(
            *item,
            mod_path@,
        ),
        final(info).deep_view().uses == old(info).deep_view().uses + spec_use_entries(*item),
        final(info).deep_view().impls == old(info).deep_view().impls + spec_impl_entries(*item),
        final(info).deep_view().child_modules == old(info).deep_view().child_modules + if top_level {
            match *item {
                AstItem::ModDecl { name, .. } => seq![name@],
                _ => Seq::<Seq<char>>::empty(),
            }
        } else {
            Seq::<Seq<char>>::empty()
        },
        final(info).deep_view().file_path == old(info).deep_view().file_path,
    decreases *item,
{
    match item {
        AstItem::StructDecl { name, vis, fields } => {
            let fs = copy_fields(fields);
            let ghost v0 = info.items;
            info.items.push(
                ItemInfo {
                    name: name.clone(),
                    kind: ItemKind::Struct,
                    vis: *vis,
                    module: mod_path.clone_path(),
                    fields: fs,
                    variants: Vec::new(),
                    param_count: Option::None,
                },
            );
            proof {
                lemma_deep_push(v0, info.items);
                assert(info.deep_view().items =~~= old(info).deep_view().items + spec_item_entries(
                    *item,
                    mod_path@,
                ));
            }
        },
        AstItem::EnumDecl { name, vis, variants } => {
            let vs = copy_variants(variants);
            let ghost v0 = info.items;
            info.items.push(
                ItemInfo {
                    name: name.clone(),
                    kind: ItemKind::Enum,
                    vis: *vis,
                    module: mod_path.clone_path(),
                    fields: Vec::new(),
                    variants: vs,
                    param_count: Option::None,
                },
            );
            proof {
                lemma_deep_push(v0, info.items);
                assert(info.deep_view().items =~~= old(info).deep_view().items + spec_item_entries(
                    *item,
                    mod_path@,
                ));
            }
        },
        AstItem::TraitDecl { name, vis } => {
            push_plain(info, name, ItemKind::Trait, *vis, mod_path);
            proof {
                assert(info.deep_view().items =~~= old(info).deep_view().items + spec_item_entries(
                    *item,
                    mod_path@,
                ));
            }
        },
        AstItem::FnDecl { name, vis, param_count } => {
            let ghost v0 = info.items;
            info.items.push(
                ItemInfo {
                    name: name.clone(),
                    kind: ItemKind::Function,
                    vis: *vis,
                    module: mod_path.clone_path(),
                    fields: Vec::new(),
                    variants: Vec::new(),
                    param_count: Option::Some(*param_count),
                },
            );
            proof {
                lemma_deep_push(v0, info.items);
                assert(info.deep_view().items =~~= old(info).deep_view().items + spec_item_entries(
                    *item,
                    mod_path@,
                ));
            }
        },
        AstItem::TypeAliasDecl { name, vis } => {
            push_plain(info, name, ItemKind::TypeAlias, *vis, mod_path);
            proof {
                assert(info.deep_view().items =~~= old(info).deep_view().items + spec_item_entries(
                    *item,
                    mod_path@,
                ));
            }
        },
        AstItem::ConstDecl { name, vis } => {
            push_plain(info, name, ItemKind::Const, *vis, mod_path);
            proof {
                assert(info.deep_view().items =~~= old(info).deep_view().items + spec_item_entries(
                    *item,
                    mod_path@,
                ));
            }
        },
        AstItem::StaticDecl { name, vis } => {
            push_plain(info, name, ItemKind::Static, *vis, mod_path);
            proof {
                assert(info.deep_view().items =~~= old(info).deep_view().items + spec_item_entries(
                    *item,
                    mod_path@,
                ));
            }
        },
        AstItem::ModDecl { name, vis, body, .. } => {
            if top_level {
                let ghost c0 = info.child_modules;
                info.child_modules.push(name.clone());
                proof {
                    lemma_deep_push(c0, info.child_modules);
                }
            }
            push_plain(info, name, ItemKind::Module, *vis, mod_path);
            match body {
                Option::Some(b) => {
                    let child_path = mod_path.child(name.as_str());
                    index_items_into(b, &child_path, false, info);
                },
                Option::None => {},
            }
            proof {
                assert(info.deep_view().items =~~= old(info).deep_view().items + spec_item_entries(
                    *item,
                    mod_path@,
                ));
                assert(info.deep_view().child_modules =~= old(info).deep_view().child_modules
                    + if top_level {
                    seq![name@]
                } else {
                    Seq::<Seq<char>>::empty()
                });
            }
        },
        AstItem::UseDecl { tree, vis, .. } => {
            let prefix: Vec<String> = Vec::new();
            let ghost u0 = info.uses;
            flatten_use_tree(tree, &prefix, *vis, &mut info.uses);
            proof {
                assert(prefix.deep_view() =~= Seq::<Seq<char>>::empty());
                assert(info.deep_view().uses =~~= old(info).deep_view().uses + spec_use_entries(
                    *item,
                ));
            }
        },
        AstItem::ImplDecl { self_ty, is_trait_impl, methods } => {
            if !*is_trait_impl {
                match self_ty {
                    Option::Some(n) => {
                        let ms = copy_methods(methods);
                        let ghost v0 = info.impls;
                        info.impls.push(ImplInfo { owner_type: n.clone(), methods: ms });
                        proof {
                            lemma_deep_push(v0, info.impls);
                            assert(info.deep_view().impls =~~= old(info).deep_view().impls
                                + spec_impl_entries(*item));
                        }
                    },
                    Option::None => {},
                }
            }
        },
        AstItem::MacroDecl { name } => {
            match name {
                Option::Some(n) => {
                    push_plain(info, n, ItemKind::Macro, Vis::Private, mod_path);
                    proof {
                        assert(info.deep_view().items =~= old(info).deep_view().items
                            + spec_item_entries(*item, mod_path@));
                    }
                },
                Option::None => {},
            }
        },
        AstItem::OtherItem => {},
    }
}

/// Push one field-less, variant-less item record.
fn push_plain(
    info: &mut ModuleInfo,
    name: &String,
    kind: ItemKind,
    vis: Vis,
    mod_path: &ModulePath,
)
    ensures
        final(info).deep_view().items == old(info).deep_view().items + seq![
            plain_item(name@, kind, vis, mod_path@),
        ],
        final(info).deep_view().uses == old(info).deep_view().uses,
        final(info).deep_view().impls == old(info).deep_view().impls,
        final(info).deep_view().child_modules == old(info).deep_view().child_modules,
        final(info).deep_view().file_path == old(info).deep_view().file_path,
{
    let ghost v0 = info.items;
    info.items.push(
        ItemInfo {
            name: name.clone(),
            kind,
            vis,
            module: mod_path.clone_path(),
            fields: Vec::new(),
            variants: Vec::new(),
            param_count: Option::None,
        },
    );
    proof {
        lemma_deep_push(v0, info.items);
        assert(info.deep_view().items =~~= old(info).deep_view().items + seq![
            plain_item(name@, kind, vis, mod_path@),
        ]);
    }
}

/// Copy a field list into field records.
fn copy_fields(fields: &Vec<AstField>) -> (r: Vec<FieldInfo>)
    ensures
        r.deep_view() == fields_view(fields@),
{
    let mut r: Vec<FieldInfo> = Vec::new();
    let mut i: usize = 0;
    while i < fields.len()
        invariant
            i <= fields@.len(),
            r.deep_view() =~= fields_view(fields@.take(i as int)),
        decreases fields@.len() - i,
    {
        let ghost r0 = r;
        r.push(FieldInfo { name: fields[i].name.clone(), vis: fields[i].vis });
        proof {
            lemma_deep_push(r0, r);
            assert(fields_view(fields@.take(i + 1)) =~= fields_view(fields@.take(i as int)).push(
                FieldV { name: fields@[i as int].name@, vis: fields@[i as int].vis },
            ));
            assert(r.deep_view() =~= fields_view(fields@.take(i + 1)));
        }
        i += 1;
    }
    proof {
        assert(fields@.take(fields@.len() as int) =~= fields@);
    }
    r
}

/// Copy a variant list into variant records.
fn copy_variants(variants: &Vec<AstVariant>) -> (r: Vec<VariantInfo>)
    ensures
        r.deep_view() == variants_view(variants@),
{
    let mut r: Vec<VariantInfo> = Vec::new();
    let mut i: usize = 0;
    while i < variants.len()
        invariant
            i <= variants@.len(),
            r.deep_view() =~= variants_view(variants@.take(i as int)),
        decreases variants@.len() - i,
    {
        let v = &variants[i];
        let fs = copy_fields(&v.fields);
        let ghost r0 = r;
        r.push(
            VariantInfo {
                name: v.name.clone(),
                field_count: v.field_count,
                is_named_fields: v.is_named_fields,
                fields: fs,
            },
        );
        proof {
            lemma_deep_push(r0, r);
            assert(variants_view(variants@.take(i + 1)) =~= variants_view(
                variants@.take(i as int),
            ).push(
                VariantV {
                    name: variants@[i as int].name@,
                    field_count: variants@[i as int].field_count,
                    is_named_fields: variants@[i as int].is_named_fields,
                    fields: fields_view(variants@[i as int].fields@),
                },
            ));
            assert(r.deep_view() =~= variants_view(variants@.take(i + 1)));
        }
        i += 1;
    }
    proof {
        assert(variants@.take(variants@.len() as int) =~= variants@);
    }
    r
}

/// Copy a method list into method records.
fn copy_methods(methods: &Vec<AstMethod>) -> (r: Vec<MethodInfo>)
    ensures
        r.deep_view() == methods_view(methods@),
{
    let mut r: Vec<MethodInfo> = Vec::new();
    let mut i: usize = 0;
    while i < methods.len()
        invariant
            i <= methods@.len(),
            r.deep_view() =~= methods_view(methods@.take(i as int)),
        decreases methods@.len() - i,
    {
        let m = &methods[i];
        let ghost r0 = r;
        r.push(
            MethodInfo {
                name: m.name.clone(),
                vis: m.vis,
                param_count: m.param_count,
                has_self: m.has_self,
            },
        );
        proof {
            lemma_deep_push(r0, r);
            assert(methods_view(methods@.take(i + 1)) =~= methods_view(
                methods@.take(i as int),
            ).push(
                MethodV {
                    name: methods@[i as int].name@,
                    vis: methods@[i as int].vis,
                    param_count: methods@[i as int].param_count,
                    has_self: methods@[i as int].has_self,
                },
            ));
            assert(r.deep_view() =~= methods_view(methods@.take(i + 1)));
        }
        i += 1;
    }
    proof {
        assert(methods@.take(methods@.len() as int) =~= methods@);
    }
    r
}

/// Index a single parsed file into its module record.
pub fn index_file(ast: &FileAst, mod_path: &ModulePath, file_path: &str) -> (r: ModuleInfo)
    ensures
        r.deep_view().items == spec_index_items(ast.items@, mod_path@),
        r.deep_view().uses == spec_index_uses(ast.items@),
        r.deep_view().impls == spec_index_impls(ast.items@),
        r.deep_view().child_modules == spec_child_modules(ast.items@),
        r.deep_view().file_path == file_path@,
{
    let mut info = ModuleInfo {
        items: Vec::new(),
        uses: Vec::new(),
        impls: Vec::new(),
        file_path: file_path.to_owned(),
        child_modules: Vec::new(),
    };
    proof {
        assert(info.deep_view().items =~= Seq::<ItemV>::empty());
        assert(info.deep_view().uses =~= Seq::<UseV>::empty());
        assert(info.deep_view().impls =~= Seq::<ImplV>::empty());
        assert(info.deep_view().child_modules =~= Seq::<Seq<char>>::empty());
    }
    index_items_into(&ast.items, mod_path, true, &mut info);
    proof {
        assert(info.deep_view().items =~= spec_index_items(ast.items@, mod_path@));
        assert(info.deep_view().uses =~= spec_index_uses(ast.items@));
        assert(info.deep_view().impls =~= spec_index_impls(ast.items@));
        assert(info.deep_view().child_modules =~= spec_child_modules(ast.items@));
    }
    info
}

} // verus!
