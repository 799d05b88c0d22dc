//! Scope resolution: turning import paths into absolute module paths,
//! and computing which names a module can refer to.

use vstd::prelude::*;
use vstd::string::*;

use crate::paths::clone_strings;
use crate::paths::lemma_deep_push;
use crate::paths::spec_accessible;
use crate::paths::str_eq;
use crate::paths::str_eq_str;
use crate::paths::ModulePath;
use crate::similarity::spec_is_similar;
use crate::symbols::first_item_named;
use crate::symbols::spec_lookup;
use crate::symbols::ItemInfo;
use crate::symbols::ItemV;
use crate::symbols::SymbolTable;
use crate::symbols::TableV;
use crate::symbols::UseV;
use crate::symbols::VariantV;

verus! {

/// Whether a path speaks of this package: it opens with the root marker,
/// a relative marker, or the package's own name.
pub open spec fn spec_is_crate_path(path: Seq<Seq<char>>, cn: Option<Seq<char>>) -> bool {
    path.len() > 0 && (path[0] == "crate"@ || path[0] == "self"@ || path[0] == "super"@ || (
    cn is Some && cn->0 == path[0]))
}

/// Whether a path speaks of this package.
pub fn is_crate_path(path: &Vec<String>, crate_name: &Option<String>) -> (r: bool)
    ensures
        r == spec_is_crate_path(path.deep_view(), crate_name.deep_view()),
{
    if path.len() == 0 {
        return false;
    }
    let first = &path[0];
    proof {
        assert(path.deep_view()[0] == path@[0]@);
    }
    if str_eq_str(first, "crate") || str_eq_str(first, "self") || str_eq_str(first, "super") {
        return true;
    }
    match crate_name {
        Option::Some(n) => str_eq(n, first),
        Option::None => false,
    }
}

/// The absolute form of an import path seen from `module`: the package's
/// own name becomes the root marker, relative markers are resolved
/// against `module`, and a bare first segment is tried as a child module
/// of `module`. `None` when the path cannot be anchored in the package.
pub open spec fn spec_resolve_use_path(
    path: Seq<Seq<char>>,
    module: Seq<Seq<char>>,
    table: TableV,
    cn: Option<Seq<char>>,
) -> Option<Seq<Seq<char>>> {
    if path.len() == 0 {
        Option::None
    } else {
        let first = path[0];
        let is_own = cn is Some && cn->0 == first;
        if first == "crate"@ || is_own {
            if is_own {
                Option::Some(seq!["crate"@] + path.drop_first())
            } else {
                Option::Some(path)
            }
        } else if first == "self"@ {
            Option::Some(module + path.drop_first())
        } else if first == "super"@ {
            if module.len() > 1 {
                Option::Some(module.drop_last() + path.drop_first())
            } else {
                Option::None
            }
        } else {
            let cand = module.push(first);
            if spec_lookup(table, cand) is Some {
                Option::Some(cand + path.drop_first())
            } else {
                Option::None
            }
        }
    }
}

/// Append `src[from..]` onto `dst`.
fn extend_strings(dst: &mut Vec<String>, src: &Vec<String>, from: usize)
    requires
        from <= src@.len(),
    ensures
        final(dst).deep_view() == old(dst).deep_view() + src.deep_view().skip(from as int),
{
    let mut i: usize = from;
    while i < src.len()
        invariant
            from <= i <= src@.len(),
            dst.deep_view() =~= old(dst).deep_view() + src.deep_view().subrange(
                from as int,
                i as int,
            ),
        decreases src@.len() - i,
    {
        let ghost d0: Vec<String> = *dst;
        dst.push(src[i].clone());
        proof {
            lemma_deep_push(d0, *dst);
            assert(src.deep_view().subrange(from as int, i + 1) =~= src.deep_view().subrange(
                from as int,
                i as int,
            ).push(src.deep_view()[i as int]));
            assert(dst.deep_view() =~= old(dst).deep_view() + src.deep_view().subrange(
                from as int,
                i + 1,
            ));
        }
        i += 1;
    }
    proof {
        assert(src.deep_view().subrange(from as int, src.deep_view().len() as int)
            =~= src.deep_view().skip(from as int));
    }
}

/// Resolve an import path to an absolute module-rooted path, seen from
/// `module`.
pub fn resolve_use_path(
    path: &Vec<String>,
    module: &ModulePath,
    symbols: &SymbolTable,
    crate_name: &Option<String>,
) -> (r: Option<Vec<String>>)
    ensures
        match r {
            Option::Some(v) => spec_resolve_use_path(
                path.deep_view(),
                module@,
                symbols@,
                crate_name.deep_view(),
            ) == Option::Some(v.deep_view()),
            Option::None => spec_resolve_use_path(
                path.deep_view(),
                module@,
                symbols@,
                crate_name.deep_view(),
            ) is None,
        },
{
    if path.len() == 0 {
        return Option::None;
    }
    let first = &path[0];
    proof {
        assert(path.deep_view()[0] == path@[0]@);
    }
    let is_own = match crate_name {
        Option::Some(n) => str_eq(n, first),
        Option::None => false,
    };
    if str_eq_str(first, "crate") || is_own {
        if is_own {
            let mut resolved: Vec<String> = Vec::new();
            resolved.push("crate".to_owned());
            extend_strings(&mut resolved, path, 1);
            proof {
                assert(resolved.deep_view() =~= seq!["crate"@] + path.deep_view().drop_first());
            }
            Option::Some(resolved)
        } else {
            let resolved = clone_strings(path);
            Option::Some(resolved)
        }
    } else if str_eq_str(first, "self") {
        let mut resolved = clone_strings(&module.segments);
        extend_strings(&mut resolved, path, 1);
        proof {
            assert(resolved.deep_view() =~= module@ + path.deep_view().drop_first());
        }
        Option::Some(resolved)
    } else if str_eq_str(first, "super") {
        if module.segments.len() > 1 {
            let mut resolved = clone_strings(&module.segments);
            resolved.pop();
            let ghost parent = resolved.deep_view();
            proof {
                assert(parent =~= module@.drop_last());
            }
            extend_strings(&mut resolved, path, 1);
            proof {
                assert(resolved.deep_view() =~= module@.drop_last() + path.deep_view().drop_first());
            }
            Option::Some(resolved)
        } else {
            Option::None
        }
    } else {
        let candidate = module.child(first.as_str());
        if symbols.contains_key(&candidate) {
            let mut resolved = clone_strings(&candidate.segments);
            extend_strings(&mut resolved, path, 1);
            proof {
                assert(resolved.deep_view() =~= module@.push(path.deep_view()[0])
                    + path.deep_view().drop_first());
            }
            Option::Some(resolved)
        } else {
            Option::None
        }
    }
}

/// The scope entries of a module's own items: each under its own name.
pub open spec fn own_items(items: Seq<ItemV>) -> Seq<(Seq<char>, ItemV)> {
    items.map_values(|it: ItemV| (it.name, it))
}

/// The scope entries a wildcard import of `items` gives to `module`:
/// the items whose visibility reaches `module`, each under its own name.
pub open spec fn glob_items(items: Seq<ItemV>, module: Seq<Seq<char>>) -> Seq<(Seq<char>, ItemV)>
    decreases items.len(),
{
    if items.len() == 0 {
        Seq::empty()
    } else {
        glob_items(items.drop_last(), module) + if spec_accessible(
            items.last().vis,
            items.last().module,
            module,
        ) {
            seq![(items.last().name, items.last())]
        } else {
            Seq::empty()
        }
    }
}

/// The scope entries one import gives to `module`.
pub open spec fn scope_of_use(
    u: UseV,
    module: Seq<Seq<char>>,
    table: TableV,
    cn: Option<Seq<char>>,
) -> Seq<(Seq<char>, ItemV)> {
    match spec_resolve_use_path(u.path, module, table, cn) {
        Option::Some(resolved) => if u.is_glob {
            match spec_lookup(table, resolved) {
                Option::Some(m2) => glob_items(m2.items, module),
                Option::None => Seq::empty(),
            }
        } else {
            if resolved.len() >= 2 {
                match spec_lookup(table, resolved.drop_last()) {
                    Option::Some(m2) => match first_item_named(m2.items, resolved.last()) {
                        Option::Some(it) => seq![(u.alias, it)],
                        Option::None => Seq::empty(),
                    },
                    Option::None => Seq::empty(),
                }
            } else {
                Seq::empty()
            }
        },
        Option::None => Seq::empty(),
    }
}

/// The scope entries of a list of imports, in order.
pub open spec fn scope_of_uses(
    uses: Seq<UseV>,
    module: Seq<Seq<char>>,
    table: TableV,
    cn: Option<Seq<char>>,
) -> Seq<(Seq<char>, ItemV)>
    decreases uses.len(),
{
    if uses.len() == 0 {
        Seq::empty()
    } else {
        scope_of_uses(uses.drop_last(), module, table, cn) + scope_of_use(
            uses.last(),
            module,
            table,
            cn,
        )
    }
}

/// Everything in scope for `module`: its own items, then what its
/// imports bring in, wildcard imports filtered by visibility.
pub open spec fn spec_names_in_scope(
    module: Seq<Seq<char>>,
    table: TableV,
    cn: Option<Seq<char>>,
) -> Seq<(Seq<char>, ItemV)> {
    match spec_lookup(table, module) {
        Option::Some(mi) => own_items(mi.items) + scope_of_uses(mi.uses, module, table, cn),
        Option::None => Seq::empty(),
    }
}

/// Compute the names in scope for `module`.
pub fn names_in_scope<'a>(
    module: &ModulePath,
    symbols: &'a SymbolTable,
    crate_name: &Option<String>,
) -> (r: Vec<(String, &'a ItemInfo)>)
    ensures
        r.deep_view() == spec_names_in_scope(module@, symbols@, crate_name.deep_view()),
{
    let ghost table = symbols@;
    let ghost cn = crate_name.deep_view();
    let mut r: Vec<(String, &'a ItemInfo)> = Vec::new();
    let module_info = match symbols.get(module) {
        Option::Some(m) => m,
        Option::None => {
            proof {
                assert(r.deep_view() =~= spec_names_in_scope(module@, table, cn));
            }
            return r;
        },
    };
    let ghost mi = module_info.deep_view();

    let mut i: usize = 0;
    while i < module_info.items.len()
        invariant
            i <= module_info.items@.len(),
            mi == module_info.deep_view(),
            r.deep_view() =~= own_items(mi.items.take(i as int)),
        decreases module_info.items@.len() - i,
    {
        let ghost r0 = r;
        r.push((module_info.items[i].name.clone(), &module_info.items[i]));
        proof {
            lemma_deep_push(r0, r);
            assert(mi.items[i as int] == module_info.items@[i as int].deep_view());
            assert(own_items(mi.items.take(i + 1)) =~= own_items(mi.items.take(i as int)).push(
                (mi.items[i as int].name, mi.items[i as int]),
            ));
            assert(r.deep_view() =~= own_items(mi.items.take(i + 1)));
        }
        i += 1;
    }
    proof {
        assert(mi.items.take(mi.items.len() as int) =~= mi.items);
    }

    let mut k: usize = 0;
    while k < module_info.uses.len()
        invariant
            k <= module_info.uses@.len(),
            mi == module_info.deep_view(),
            spec_lookup(table, module@) == Option::Some(mi),
            table == symbols@,
            cn == crate_name.deep_view(),
            r.deep_view() =~= own_items(mi.items) + scope_of_uses(
                mi.uses.take(k as int),
                module@,
                table,
                cn,
            ),
        decreases module_info.uses@.len() - k,
    {
        proof {
            assert(mi.uses.take(k + 1).drop_last() =~= mi.uses.take(k as int));
            assert(mi.uses.take(k + 1).last() == module_info.uses@[k as int].deep_view());
        }
        let use_info = &module_info.uses[k];
        let ghost uv = use_info.deep_view();
        let resolved_opt = resolve_use_path(&use_info.path, module, symbols, crate_name);
        match resolved_opt {
            Option::Some(resolved) => {
                if use_info.is_glob {
                    let mod_path = ModulePath { segments: resolved };
                    match symbols.get(&mod_path) {
                        Option::Some(imported) => {
                            let ghost m2 = imported.deep_view();
                            let mut t: usize = 0;
                            while t < imported.items.len()
                                invariant
                                    t <= imported.items@.len(),
                                    m2 == imported.deep_view(),
                                    mi == module_info.deep_view(),
                                    r.deep_view() =~= own_items(mi.items) + scope_of_uses(
                                        mi.uses.take(k as int),
                                        module@,
                                        table,
                                        cn,
                                    ) + glob_items(m2.items.take(t as int), module@),
                                decreases imported.items@.len() - t,
                            {
                                proof {
                                    assert(m2.items.take(t + 1).drop_last() =~= m2.items.take(
                                        t as int,
                                    ));
                                    assert(m2.items.take(t + 1).last() == imported.items@[
                                        t as int].deep_view());
                                }
                                let it = &imported.items[t];
                                if it.vis.accessible_from(&it.module, module) {
                                    let ghost r0 = r;
                                    r.push((it.name.clone(), it));
                                    proof {
                                        lemma_deep_push(r0, r);
                                        assert(r.deep_view() =~= own_items(mi.items)
                                            + scope_of_uses(
                                            mi.uses.take(k as int),
                                            module@,
                                            table,
                                            cn,
                                        ) + glob_items(m2.items.take(t + 1), module@));
                                    }
                                } else {
                                    proof {
                                        assert(glob_items(m2.items.take(t + 1), module@)
                                            =~= glob_items(m2.items.take(t as int), module@));
                                    }
                                }
                                t += 1;
                            }
                            proof {
                                assert(m2.items.take(m2.items.len() as int) =~= m2.items);
                                assert(scope_of_use(uv, module@, table, cn) =~= glob_items(
                                    m2.items,
                                    module@,
                                ));
                                assert(r.deep_view() =~= own_items(mi.items) + scope_of_uses(
                                    mi.uses.take(k + 1),
                                    module@,
                                    table,
                                    cn,
                                ));
                            }
                        },
                        Option::None => {
                            proof {
                                assert(scope_of_use(uv, module@, table, cn) =~= Seq::<
                                    (Seq<char>, ItemV),
                                >::empty());
                                assert(r.deep_view() =~= own_items(mi.items) + scope_of_uses(
                                    mi.uses.take(k + 1),
                                    module@,
                                    table,
                                    cn,
                                ));
                            }
                        },
                    }
                } else {
                    if resolved.len() >= 2 {
                        let mut prefix = clone_strings(&resolved);
                        prefix.pop();
                        let mp = ModulePath { segments: prefix };
                        proof {
                            assert(mp@ =~= resolved.deep_view().drop_last());
                            assert(resolved.deep_view().last() == resolved@[resolved@.len()
                                - 1]@);
                        }
                        match symbols.find_in_module(&mp, resolved[resolved.len() - 1].as_str()) {
                            Option::Some(item) => {
                                let ghost r0 = r;
                                r.push((use_info.alias.clone(), item));
                                proof {
                                    lemma_deep_push(r0, r);
                                    assert(scope_of_use(uv, module@, table, cn) =~= seq![
                                        (uv.alias, item.deep_view()),
                                    ]);
                                    assert(r.deep_view() =~= own_items(mi.items) + scope_of_uses(
                                        mi.uses.take(k + 1),
                                        module@,
                                        table,
                                        cn,
                                    ));
                                }
                            },
                            Option::None => {
                                proof {
                                    assert(scope_of_use(uv, module@, table, cn) =~= Seq::<
                                        (Seq<char>, ItemV),
                                    >::empty());
                                    assert(r.deep_view() =~= own_items(mi.items) + scope_of_uses(
                                        mi.uses.take(k + 1),
                                        module@,
                                        table,
                                        cn,
                                    ));
                                }
                            },
                        }
                    } else {
                        proof {
                            assert(scope_of_use(uv, module@, table, cn) =~= Seq::<
                                (Seq<char>, ItemV),
                            >::empty());
                            assert(r.deep_view() =~= own_items(mi.items) + scope_of_uses(
                                mi.uses.take(k + 1),
                                module@,
                                table,
                                cn,
                            ));
                        }
                    }
                }
            },
            Option::None => {
                proof {
                    assert(scope_of_use(uv, module@, table, cn) =~= Seq::<
                        (Seq<char>, ItemV),
                    >::empty());
                    assert(r.deep_view() =~= own_items(mi.items) + scope_of_uses(
                        mi.uses.take(k + 1),
                        module@,
                        table,
                        cn,
                    ));
                }
            },
        }
        k += 1;
    }
    proof {
        assert(mi.uses.take(mi.uses.len() as int) =~= mi.uses);
    }
    r
}

/// The first scope entry named `name` whose item has kind `kind`.
pub open spec fn first_in_scope_with_kind(
    scope: Seq<(Seq<char>, ItemV)>,
    name: Seq<char>,
    kind: crate::symbols::ItemKind,
) -> Option<ItemV>
    decreases scope.len(),
{
    if scope.len() == 0 {
        Option::None
    } else if scope[0].0 == name && scope[0].1.kind == kind {
        Option::Some(scope[0].1)
    } else {
        first_in_scope_with_kind(scope.drop_first(), name, kind)
    }
}

/// Whether any scope entry is named `name`.
pub open spec fn in_scope_any(scope: Seq<(Seq<char>, ItemV)>, name: Seq<char>) -> bool {
    exists|i: int| 0 <= i < scope.len() && (#[trigger] scope[i]).0 == name
}

/// Skipping entries that miss the name or kind leaves the first match.
pub proof fn lemma_first_kind_skip(
    scope: Seq<(Seq<char>, ItemV)>,
    name: Seq<char>,
    kind: crate::symbols::ItemKind,
    i: int,
)
    requires
        0 <= i <= scope.len(),
        forall|j: int|
            0 <= j < i ==> !((#[trigger] scope[j]).0 == name && scope[j].1.kind == kind),
    ensures
        first_in_scope_with_kind(scope, name, kind) == first_in_scope_with_kind(
            scope.skip(i),
            name,
            kind,
        ),
    decreases i,
{
    if i > 0 {
        lemma_first_kind_skip(scope.drop_first(), name, kind, i - 1);
        assert(scope.drop_first().skip(i - 1) =~= scope.skip(i));
    } else {
        assert(scope.skip(0) =~= scope);
    }
}

/// Find the first scope entry with the given name and kind.
pub fn scope_find_kind<'a>(
    scope: &Vec<(String, &'a ItemInfo)>,
    name: &str,
    kind: crate::symbols::ItemKind,
) -> (r: Option<&'a ItemInfo>)
    ensures
        match r {
            Option::Some(it) => first_in_scope_with_kind(scope.deep_view(), name@, kind)
                == Option::Some(it.deep_view()),
            Option::None => first_in_scope_with_kind(scope.deep_view(), name@, kind) is None,
        },
{
    let ghost sv = scope.deep_view();
    let mut i: usize = 0;
    while i < scope.len()
        invariant
            i <= scope@.len(),
            sv == scope.deep_view(),
            forall|j: int| 0 <= j < i ==> !((#[trigger] sv[j]).0 == name@ && sv[j].1.kind == kind),
        decreases scope@.len() - i,
    {
        proof {
            assert(sv[i as int] == scope@[i as int].deep_view());
        }
        let entry = &scope[i];
        if str_eq_str(&entry.0, name) && entry.1.kind == kind {
            proof {
                lemma_first_kind_skip(sv, name@, kind, i as int);
                assert(sv.skip(i as int)[0] == sv[i as int]);
            }
            return Option::Some(entry.1);
        }
        i += 1;
    }
    proof {
        lemma_first_kind_skip(sv, name@, kind, sv.len() as int);
        assert(sv.skip(sv.len() as int).len() == 0);
    }
    Option::None
}

/// Whether any scope entry has the given name.
pub fn scope_has_name(scope: &Vec<(String, &ItemInfo)>, name: &str) -> (r: bool)
    ensures
        r == in_scope_any(scope.deep_view(), name@),
{
    let ghost sv = scope.deep_view();
    let mut i: usize = 0;
    while i < scope.len()
        invariant
            i <= scope@.len(),
            sv == scope.deep_view(),
            forall|j: int| 0 <= j < i ==> (#[trigger] sv[j]).0 != name@,
        decreases scope@.len() - i,
    {
        proof {
            assert(sv[i as int] == scope@[i as int].deep_view());
        }
        if str_eq_str(&scope[i].0, name) {
            proof {
                assert(in_scope_any(sv, name@));
            }
            return true;
        }
        i += 1;
    }
    false
}

/// The items of `items` similar to `name`, in order.
pub open spec fn items_similar(items: Seq<ItemV>, name: Seq<char>) -> Seq<ItemV>
    decreases items.len(),
{
    if items.len() == 0 {
        Seq::empty()
    } else {
        items_similar(items.drop_last(), name) + if spec_is_similar(items.last().name, name) {
            seq![items.last()]
        } else {
            Seq::empty()
        }
    }
}

/// The one item of the module under `mp` whose name is similar to
/// `name`, when exactly one is.
pub open spec fn spec_similar_unique(table: TableV, mp: Seq<Seq<char>>, name: Seq<char>) -> Option<
    Seq<char>,
> {
    match spec_lookup(table, mp) {
        Option::Some(mi) => if items_similar(mi.items, name).len() == 1 {
            Option::Some(items_similar(mi.items, name)[0].name)
        } else {
            Option::None
        },
        Option::None => Option::None,
    }
}

/// Find the unique similarly-named item in the module under `module`,
/// for a "did you mean" hint; `None` when there is none or more than one.
pub fn find_similar_in_module(symbols: &SymbolTable, module: &ModulePath, name: &str) -> (r: Option<
    String,
>)
    ensures
        match r {
            Option::Some(s) => spec_similar_unique(symbols@, module@, name@) == Option::Some(s@),
            Option::None => spec_similar_unique(symbols@, module@, name@) is None,
        },
{
    let module_info = match symbols.get(module) {
        Option::Some(m) => m,
        Option::None => {
            return Option::None;
        },
    };
    let ghost mi = module_info.deep_view();
    let mut found: Vec<&ItemInfo> = Vec::new();
    let mut i: usize = 0;
    while i < module_info.items.len()
        invariant
            i <= module_info.items@.len(),
            mi == module_info.deep_view(),
            found.deep_view() =~= items_similar(mi.items.take(i as int), name@),
        decreases module_info.items@.len() - i,
    {
        proof {
            assert(mi.items.take(i + 1).drop_last() =~= mi.items.take(i as int));
            assert(mi.items.take(i + 1).last() == module_info.items@[i as int].deep_view());
        }
        if crate::similarity::is_similar(module_info.items[i].name.as_str(), name) {
            let ghost f0 = found;
            found.push(&module_info.items[i]);
            proof {
                lemma_deep_push(f0, found);
                assert(found.deep_view() =~= items_similar(mi.items.take(i + 1), name@));
            }
        } else {
            proof {
                assert(items_similar(mi.items.take(i + 1), name@) =~= items_similar(
                    mi.items.take(i as int),
                    name@,
                ));
            }
        }
        i += 1;
    }
    proof {
        assert(mi.items.take(mi.items.len() as int) =~= mi.items);
    }
    if found.len() == 1 {
        proof {
            assert(found.deep_view()[0] == found@[0].deep_view());
        }
        Option::Some(found[0].name.clone())
    } else {
        Option::None
    }
}

/// The variants of `variants` similar to `name`, in order.
pub open spec fn variants_similar(variants: Seq<VariantV>, name: Seq<char>) -> Seq<VariantV>
    decreases variants.len(),
{
    if variants.len() == 0 {
        Seq::empty()
    } else {
        variants_similar(variants.drop_last(), name) + if spec_is_similar(
            variants.last().name,
            name,
        ) {
            seq![variants.last()]
        } else {
            Seq::empty()
        }
    }
}

/// The entries of the whole package whose item bears `name`, each with
/// its module's path, in table order.
pub open spec fn items_named_with_path(
    owner: Seq<Seq<char>>,
    items: Seq<ItemV>,
    name: Seq<char>,
) -> Seq<(Seq<Seq<char>>, ItemV)>
    decreases items.len(),
{
    if items.len() == 0 {
        Seq::empty()
    } else {
        items_named_with_path(owner, items.drop_last(), name) + if items.last().name == name {
            seq![(owner, items.last())]
        } else {
            Seq::empty()
        }
    }
}

/// Every item named `name` anywhere in the package, with its module's
/// path, in table order.
pub open spec fn spec_find_anywhere(t: TableV, name: Seq<char>) -> Seq<(Seq<Seq<char>>, ItemV)>
    decreases t.len(),
{
    if t.len() == 0 {
        Seq::empty()
    } else {
        spec_find_anywhere(t.drop_last(), name) + items_named_with_path(
            t.last().0,
            t.last().1.items,
            name,
        )
    }
}

/// Find every item named `name` anywhere in the package.
pub fn find_anywhere<'a>(symbols: &'a SymbolTable, name: &str) -> (r: Vec<
    (&'a ModulePath, &'a ItemInfo),
>)
    ensures
        r.deep_view() == spec_find_anywhere(symbols@, name@),
{
    let mut r: Vec<(&'a ModulePath, &'a ItemInfo)> = Vec::new();
    let mut i: usize = 0;
    while i < symbols.modules.len()
        invariant
            i <= symbols.modules@.len(),
            r.deep_view() =~= spec_find_anywhere(symbols@.take(i as int), name@),
        decreases symbols.modules@.len() - i,
    {
        let entry_path = &symbols.modules[i].0;
        let module_info = &symbols.modules[i].1;
        let ghost owner = symbols@[i as int].0;
        let ghost items = symbols@[i as int].1.items;
        let mut k: usize = 0;
        while k < module_info.items.len()
            invariant
                i < symbols.modules@.len(),
                k <= module_info.items@.len(),
                entry_path == &symbols.modules@[i as int].0,
                module_info == &symbols.modules@[i as int].1,
                owner == symbols@[i as int].0,
                items == symbols@[i as int].1.items,
                r.deep_view() =~= spec_find_anywhere(symbols@.take(i as int), name@)
                    + items_named_with_path(owner, items.take(k as int), name@),
            decreases module_info.items@.len() - k,
        {
            proof {
                assert(items.take(k + 1).drop_last() =~= items.take(k as int));
                assert(items.take(k + 1).last() == module_info.items@[k as int].deep_view());
            }
            if str_eq_str(&module_info.items[k].name, name) {
                let ghost r0 = r;
                r.push((entry_path, &module_info.items[k]));
                proof {
                    lemma_deep_push(r0, r);
                    assert(r.deep_view() =~= spec_find_anywhere(symbols@.take(i as int), name@)
                        + items_named_with_path(owner, items.take(k + 1), name@));
                }
            } else {
                proof {
                    assert(items_named_with_path(owner, items.take(k + 1), name@)
                        =~= items_named_with_path(owner, items.take(k as int), name@));
                }
            }
            k += 1;
        }
        proof {
            let t1 = symbols@.take(i + 1);
            assert(t1.drop_last() =~= symbols@.take(i as int));
            assert(t1.last() == symbols@[i as int]);
            assert(items.take(items.len() as int) =~= items);
            assert(r.deep_view() =~= spec_find_anywhere(symbols@.take(i + 1), name@));
        }
        i += 1;
    }
    proof {
        assert(symbols@.take(symbols@.len() as int) =~= symbols@);
    }
    r
}

} // verus!
