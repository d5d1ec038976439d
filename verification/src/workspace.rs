//! Modules of a workspace: which are reachable from the entry, whose
//! declarations count, and when they contradict each other.

use vstd::prelude::*;

use crate::ast::TypeNode;
use crate::canonical::{MainSignature, SchemaTable};
use crate::error::{ErrorView, LoweringError};
use crate::ir::texts;
use crate::names::{is_among, name_index, NameTable};
use crate::native_import::HostFnTables;
use crate::text::same_text;
use crate::types::{same_schema, schema_view, Schema, SchemaView, TypeRepr};

verus! {

/// A declared type with arguments in place of its parameters, and the canonical
/// form that it then has.
#[derive(Debug, PartialEq, Eq)]
pub struct SchemaInstance {
    pub args: Vec<TypeNode>,
    pub form: TypeRepr,
}

/// A declared record or enum type: the names of its variants, if it is an enum
/// type; its canonical form by the declarations of its own module, if it is a
/// record type and has one; its canonical form by those of the workspace, or why
/// it has none; and its forms with arguments.
#[derive(Debug, PartialEq, Eq)]
pub struct SchemaDef {
    pub name: Option<String>,
    pub variants: Vec<String>,
    pub local: Option<Schema>,
    pub shape: Result<TypeRepr, LoweringError>,
    pub instances: Vec<SchemaInstance>,
}

/// A declaration at the top of a module, with the id of its body.
#[derive(Debug, PartialEq, Eq)]
pub struct SchemaDecl {
    pub name: String,
    pub body: u64,
}

/// What is known of a module: its declarations at the top, the bodies of all
/// its declarations by id, its entry signature, and the host functions.
#[derive(Debug, PartialEq, Eq)]
pub struct AnalyzedTree {
    pub root_schemas: Vec<SchemaDecl>,
    pub schemas: Vec<(u64, SchemaDef)>,
    pub main_signature: Option<MainSignature>,
    pub host_fns: HostFnTables,
}

/// The modules of a workspace, and which module imports which.
#[derive(Debug, PartialEq, Eq)]
pub struct WorkspaceTree {
    pub modules: NameTable<AnalyzedTree>,
    pub import_graph: NameTable<Vec<String>>,
}

// ---------------------------------------------------------------------------
// Reachable modules.
// ---------------------------------------------------------------------------

/// The modules that a module imports, in source order.
pub open spec fn imports_of(ws: WorkspaceTree, module: Seq<char>) -> Seq<Seq<char>> {
    match name_index(ws.import_graph.entries@, module, 0) {
        Some(i) => texts(ws.import_graph.entries@[i].1@),
        None => Seq::empty(),
    }
}

/// The modules found, after those of the imports at and behind `from` that are
/// loaded and new have been appended.
pub open spec fn with_imports(
    ws: WorkspaceTree,
    found: Seq<Seq<char>>,
    edges: Seq<Seq<char>>,
    from: int,
) -> Seq<Seq<char>>
    decreases edges.len() - from,
{
    if from < 0 || from >= edges.len() {
        found
    } else if ws.modules.has(edges[from]) && !found.contains(edges[from]) {
        with_imports(ws, found.push(edges[from]), edges, from + 1)
    } else {
        with_imports(ws, found, edges, from + 1)
    }
}

/// The modules found once the imports of the one at `next` and of all behind
/// it have been followed. At most `limit` are.
pub open spec fn followed(ws: WorkspaceTree, found: Seq<Seq<char>>, next: int, limit: nat) -> Seq<
    Seq<char>,
>
    decreases limit - next,
{
    if next < 0 || next >= found.len() || next >= limit {
        found
    } else {
        followed(
            ws,
            with_imports(ws, found, imports_of(ws, found[next]), 0),
            next + 1,
            limit,
        )
    }
}

/// The modules reachable from the entry, breadth first. No more are followed
/// than there are modules, and the entry.
pub open spec fn reachable(ws: WorkspaceTree, entry: Seq<char>) -> Seq<Seq<char>> {
    followed(ws, seq![entry], 0, ws.modules.entries@.len() + 1)
}

/// The import leads from one module to another that is loaded.
pub open spec fn leads_to(ws: WorkspaceTree, from: Seq<char>, to: Seq<char>) -> bool {
    ws.modules.has(to) && imports_of(ws, from).contains(to)
}

/// A chain of imports from the entry.
pub open spec fn import_path(ws: WorkspaceTree, entry: Seq<char>, path: Seq<Seq<char>>) -> bool {
    &&& path.len() > 0
    &&& path[0] == entry
    &&& forall|i: int|
        #![trigger path[i]]
        0 < i < path.len() ==> leads_to(ws, path[i - 1], path[i])
}

/// The walk so far: it began with the entry, found no module twice and each
/// through an earlier one, and has followed the first `next`.
pub open spec fn walked(
    ws: WorkspaceTree,
    entry: Seq<char>,
    found: Seq<Seq<char>>,
    next: int,
) -> bool {
    &&& found.len() > 0
    &&& found[0] == entry
    &&& found.no_duplicates()
    &&& forall|i: int|
        #![trigger found[i]]
        0 < i < found.len() ==> found_through(ws, found, i)
    &&& forall|i: int, to: Seq<char>|
        0 <= i < next && i < found.len() && #[trigger] leads_to(ws, found[i], to)
            ==> found.contains(to)
}

/// The module at `i` was found through an earlier one.
pub open spec fn found_through(ws: WorkspaceTree, found: Seq<Seq<char>>, i: int) -> bool {
    exists|j: int| 0 <= j < i && leads_to(ws, #[trigger] found[j], found[i])
}

/// Appending the imports of the module at `next` keeps the walk going.
proof fn lemma_with_imports(
    ws: WorkspaceTree,
    entry: Seq<char>,
    found: Seq<Seq<char>>,
    next: int,
    from: int,
)
    requires
        walked(ws, entry, found, next),
        0 <= next < found.len(),
        0 <= from,
        forall|k: int|
            0 <= k < from && k < imports_of(ws, found[next]).len() && ws.modules.has(
                #[trigger] imports_of(ws, found[next])[k],
            ) ==> found.contains(imports_of(ws, found[next])[k]),
    ensures
        ({
            let after = with_imports(ws, found, imports_of(ws, found[next]), from);
            &&& walked(ws, entry, after, next + 1)
            &&& found.len() <= after.len()
            &&& forall|i: int| 0 <= i < found.len() ==> #[trigger] after[i] == found[i]
        }),
    decreases imports_of(ws, found[next]).len() - from,
{
    let edges = imports_of(ws, found[next]);
    if from >= edges.len() {
        assert forall|i: int, to: Seq<char>|
            0 <= i < next + 1 && i < found.len() && #[trigger] leads_to(
                ws,
                found[i],
                to,
            ) implies found.contains(to) by {
            if i == next {
                let k = choose|k: int| 0 <= k < edges.len() && edges[k] == to;
                assert(edges[k] == to);
            }
        }
    } else {
        let e = edges[from];
        if ws.modules.has(e) && !found.contains(e) {
            let more = found.push(e);
            assert(more[next] == found[next]);
            assert(edges.contains(e));
            assert(leads_to(ws, more[next], e));
            assert forall|i: int| #![trigger more[i]] 0 < i < more.len() implies found_through(
                ws,
                more,
                i,
            ) by {
                if i < found.len() {
                    assert(found_through(ws, found, i));
                    let j = choose|j: int| 0 <= j < i && leads_to(
                        ws,
                        #[trigger] found[j],
                        found[i],
                    );
                    assert(leads_to(ws, more[j], more[i]));
                } else {
                    assert(leads_to(ws, more[next], more[i]));
                }
            }
            assert forall|i: int, to: Seq<char>|
                0 <= i < next && i < more.len() && #[trigger] leads_to(
                    ws,
                    more[i],
                    to,
                ) implies more.contains(to) by {
                assert(leads_to(ws, found[i], to));
                let k = choose|k: int| 0 <= k < found.len() && found[k] == to;
                assert(more[k] == to);
            }
            assert(more.no_duplicates());
            assert forall|k: int|
                0 <= k < from + 1 && k < imports_of(ws, more[next]).len() && ws.modules.has(
                    #[trigger] imports_of(ws, more[next])[k],
                ) implies more.contains(imports_of(ws, more[next])[k]) by {
                if k == from {
                    assert(more[found.len() as int] == e);
                } else {
                    assert(found.contains(edges[k]));
                    let m = choose|m: int| 0 <= m < found.len() && found[m] == edges[k];
                    assert(more[m] == edges[k]);
                }
            }
            lemma_with_imports(ws, entry, more, next, from + 1);
            let after = with_imports(ws, more, edges, from + 1);
            assert forall|i: int| 0 <= i < found.len() implies #[trigger] after[i] == found[i] by {
                assert(after[i] == more[i]);
            }
        } else {
            lemma_with_imports(ws, entry, found, next, from + 1);
        }
    }
}

/// A walk finds at most the loaded modules, and the entry.
proof fn lemma_walk_is_bounded(
    ws: WorkspaceTree,
    entry: Seq<char>,
    found: Seq<Seq<char>>,
    next: int,
)
    requires
        walked(ws, entry, found, next),
    ensures
        found.len() <= ws.modules.entries@.len() + 1,
{
    let names = Seq::new(ws.modules.entries@.len(), |i: int| ws.modules.entries@[i].0@);
    let rest = found.drop_first();
    assert(rest.no_duplicates());
    assert(rest.to_set().subset_of(names.to_set())) by {
        assert forall|t: Seq<char>| rest.to_set().contains(t) implies names.to_set().contains(
            t,
        ) by {
            let i = choose|i: int| 0 <= i < rest.len() && rest[i] == t;
            assert(found[i + 1] == t);
            assert(found_through(ws, found, i + 1));
            assert(ws.modules.has(t));
            let k = choose|k: int|
                0 <= k < ws.modules.entries@.len() && (#[trigger] ws.modules.entries@[k]).0@ == t;
            assert(names[k] == t);
        }
    }
    rest.unique_seq_to_set();
    names.lemma_cardinality_of_set();
    vstd::set_lib::lemma_len_subset(rest.to_set(), names.to_set());
}

/// Following the imports to the end keeps the walk, and then every module has
/// been followed.
proof fn lemma_followed(ws: WorkspaceTree, entry: Seq<char>, found: Seq<Seq<char>>, next: int)
    requires
        walked(ws, entry, found, next),
        0 <= next <= found.len(),
    ensures
        ({
            let all = followed(ws, found, next, ws.modules.entries@.len() + 1);
            walked(ws, entry, all, all.len() as int)
        }),
    decreases ws.modules.entries@.len() + 1 - next,
{
    lemma_walk_is_bounded(ws, entry, found, next);
    if next < found.len() {
        assert forall|k: int|
            0 <= k < 0 && k < imports_of(ws, found[next]).len() && ws.modules.has(
                #[trigger] imports_of(ws, found[next])[k],
            ) implies found.contains(imports_of(ws, found[next])[k]) by {}
        lemma_with_imports(ws, entry, found, next, 0);
        lemma_followed(
            ws,
            entry,
            with_imports(ws, found, imports_of(ws, found[next]), 0),
            next + 1,
        );
    }
}

/// The modules reachable through imports that resolve, the entry first, each
/// once, in breadth-first order.
pub fn reachable_modules(ws: &WorkspaceTree, entry_module: &str) -> (r: Vec<String>)
    ensures
        texts(r@) == reachable(*ws, entry_module@),
{
    let mut found: Vec<String> = Vec::new();
    found.push(entry_module.to_owned());
    let ghost limit = ws.modules.entries@.len() + 1;
    let ghost entry = entry_module@;
    assert(texts(found@) =~= seq![entry]);
    let mut next: usize = 0;
    while next < found.len()
        invariant
            next <= found@.len(),
            limit == ws.modules.entries@.len() + 1,
            walked(*ws, entry, texts(found@), next as int),
            followed(*ws, texts(found@), next as int, limit) == reachable(*ws, entry),
        decreases limit - next,
    {
        let ghost before = texts(found@);
        proof {
            lemma_walk_is_bounded(*ws, entry, before, next as int);
            assert forall|k: int|
                0 <= k < 0 && k < imports_of(*ws, before[next as int]).len() && ws.modules.has(
                    #[trigger] imports_of(*ws, before[next as int])[k],
                ) implies before.contains(imports_of(*ws, before[next as int])[k]) by {}
            lemma_with_imports(*ws, entry, before, next as int, 0);
        }
        let id: String = found[next].clone();
        match ws.import_graph.get(id.as_str()) {
            None => {},
            Some(edges) => {
                let ghost all = texts(edges@);
                assert(all == imports_of(*ws, before[next as int]));
                let mut k: usize = 0;
                while k < edges.len()
                    invariant
                        k <= edges@.len(),
                        all == texts(edges@),
                        with_imports(*ws, texts(found@), all, k as int) == with_imports(
                            *ws,
                            before,
                            all,
                            0,
                        ),
                    decreases edges@.len() - k,
                {
                    let edge = &edges[k];
                    let ghost held = texts(found@);
                    if ws.modules.contains_key(edge.as_str()) {
                        let seen: bool = is_among(&found, edge.as_str());
                        assert(seen == held.contains(edge@)) by {
                            if seen {
                                let i = choose|i: int|
                                    0 <= i < found@.len() && (#[trigger] found@[i])@ == edge@;
                                assert(held[i] == edge@);
                            }
                            if held.contains(edge@) {
                                let i = choose|i: int| 0 <= i < held.len() && held[i] == edge@;
                                assert(found@[i]@ == edge@);
                            }
                        }
                        if !seen {
                            found.push(edge.clone());
                            assert(texts(found@) =~= held.push(edge@));
                        }
                    }
                    k += 1;
                }
            },
        }
        next += 1;
    }
    found
}

proof fn lemma_path_to(
    ws: WorkspaceTree,
    entry: Seq<char>,
    found: Seq<Seq<char>>,
    next: int,
    i: int,
) -> (path: Seq<Seq<char>>)
    requires
        walked(ws, entry, found, next),
        0 <= i < found.len(),
    ensures
        import_path(ws, entry, path),
        path.last() == found[i],
    decreases i,
{
    if i == 0 {
        seq![entry]
    } else {
        assert(found_through(ws, found, i));
        let j = choose|j: int| 0 <= j < i && leads_to(ws, #[trigger] found[j], found[i]);
        let before = lemma_path_to(ws, entry, found, next, j);
        let path = before.push(found[i]);
        assert forall|k: int| #![trigger path[k]] 0 < k < path.len() implies leads_to(
            ws,
            path[k - 1],
            path[k],
        ) by {
            if k < before.len() {
                assert(before[k] == path[k]);
            }
        }
        path
    }
}

proof fn lemma_path_is_found(
    ws: WorkspaceTree,
    entry: Seq<char>,
    found: Seq<Seq<char>>,
    path: Seq<Seq<char>>,
    i: int,
)
    requires
        walked(ws, entry, found, found.len() as int),
        import_path(ws, entry, path),
        0 <= i < path.len(),
    ensures
        found.contains(path[i]),
    decreases i,
{
    if i == 0 {
        assert(found[0] == path[0]);
    } else {
        lemma_path_is_found(ws, entry, found, path, i - 1);
        let k = choose|k: int| 0 <= k < found.len() && found[k] == path[i - 1];
        assert(leads_to(ws, path[i - 1], path[i]));
        assert(leads_to(ws, found[k], path[i]));
    }
}

/// The reachable modules are the entry, first, and those that a chain of
/// imports of loaded modules leads to; none occurs twice.
pub proof fn law_reachable_is_exact(ws: WorkspaceTree, entry: Seq<char>)
    ensures
        reachable(ws, entry).len() > 0,
        reachable(ws, entry)[0] == entry,
        reachable(ws, entry).no_duplicates(),
        forall|module: Seq<char>|
            #[trigger] reachable(ws, entry).contains(module) <==> exists|path: Seq<Seq<char>>|
                #[trigger] import_path(ws, entry, path) && path.last() == module,
{
    let start = seq![entry];
    assert(walked(ws, entry, start, 0));
    lemma_followed(ws, entry, start, 0);
    let all = reachable(ws, entry);
    assert forall|module: Seq<char>|
        #[trigger] all.contains(module) <==> exists|path: Seq<Seq<char>>|
            #[trigger] import_path(ws, entry, path) && path.last() == module by {
        if all.contains(module) {
            let i = choose|i: int| 0 <= i < all.len() && all[i] == module;
            let path = lemma_path_to(ws, entry, all, all.len() as int, i);
            assert(import_path(ws, entry, path) && path.last() == module);
        }
        if exists|path: Seq<Seq<char>>|
            #[trigger] import_path(ws, entry, path) && path.last() == module {
            let path = choose|path: Seq<Seq<char>>|
                #[trigger] import_path(ws, entry, path) && path.last() == module;
            lemma_path_is_found(ws, entry, all, path, path.len() - 1);
        }
    }
}

// ---------------------------------------------------------------------------
// Declarations.
// ---------------------------------------------------------------------------

/// A module by name.
pub struct LoadedModule<'a> {
    pub id: &'a String,
    pub tree: &'a AnalyzedTree,
}

/// The names and contents of modules.
pub open spec fn modules_view(modules: Seq<LoadedModule<'_>>) -> Seq<(Seq<char>, AnalyzedTree)> {
    Seq::new(modules.len(), |i: int| (modules[i].id@, *modules[i].tree))
}

/// Those of the first `n` names that are loaded.
pub open spec fn loaded(ws: WorkspaceTree, names: Seq<Seq<char>>, n: nat) -> Seq<
    (Seq<char>, AnalyzedTree),
>
    decreases n,
{
    if n == 0 {
        Seq::empty()
    } else {
        let before = loaded(ws, names, (n - 1) as nat);
        let name = names[n - 1];
        match name_index(ws.modules.entries@, name, 0) {
            Some(i) => before.push((name, ws.modules.entries@[i].1)),
            None => before,
        }
    }
}

/// Looks up the modules of the given names.
pub fn load_modules<'a>(ws: &'a WorkspaceTree, ids: &'a Vec<String>) -> (r: Vec<LoadedModule<'a>>)
    ensures
        modules_view(r@) == loaded(*ws, texts(ids@), ids@.len()),
{
    let mut out: Vec<LoadedModule<'a>> = Vec::new();
    let mut i: usize = 0;
    assert(modules_view(out@) =~= Seq::empty());
    while i < ids.len()
        invariant
            i <= ids@.len(),
            modules_view(out@) == loaded(*ws, texts(ids@), i as nat),
        decreases ids@.len() - i,
    {
        match ws.modules.get(ids[i].as_str()) {
            Some(tree) => {
                let ghost before = out@;
                out.push(LoadedModule { id: &ids[i], tree });
                assert(modules_view(out@) =~= modules_view(before).push((ids@[i as int]@, *tree)));
            },
            None => {},
        }
        i += 1;
    }
    out
}

/// The least index at or behind `from` of a body by its id.
pub open spec fn body_index(schemas: Seq<(u64, SchemaDef)>, id: u64, from: int) -> Option<int>
    decreases schemas.len() - from,
{
    if from < 0 || from >= schemas.len() {
        None
    } else if schemas[from].0 == id {
        Some(from)
    } else {
        body_index(schemas, id, from + 1)
    }
}

fn find_body(schemas: &Vec<(u64, SchemaDef)>, id: u64) -> (r: Option<&SchemaDef>)
    ensures
        match r {
            Some(d) => body_index(schemas@, id, 0) matches Some(i) && 0 <= i < schemas@.len()
                && schemas@[i].1 == *d,
            None => body_index(schemas@, id, 0) is None,
        },
{
    let mut i: usize = 0;
    while i < schemas.len()
        invariant
            i <= schemas@.len(),
            body_index(schemas@, id, 0) == body_index(schemas@, id, i as int),
        decreases schemas@.len() - i,
    {
        if schemas[i].0 == id {
            return Some(&schemas[i].1);
        }
        i += 1;
    }
    None
}

/// The bodies of the first `n` declarations at the top of a module, with their
/// names.
pub open spec fn top_declarations(tree: AnalyzedTree, n: nat) -> Seq<(Seq<char>, SchemaDef)>
    decreases n,
{
    if n == 0 {
        Seq::empty()
    } else {
        let before = top_declarations(tree, (n - 1) as nat);
        let decl = tree.root_schemas@[n - 1];
        match body_index(tree.schemas@, decl.body, 0) {
            Some(i) => before.push((decl.name@, tree.schemas@[i].1)),
            None => before,
        }
    }
}

/// The first `n` bodies of a module that bear a name.
pub open spec fn named_declarations(tree: AnalyzedTree, n: nat) -> Seq<(Seq<char>, SchemaDef)>
    decreases n,
{
    if n == 0 {
        Seq::empty()
    } else {
        let before = named_declarations(tree, (n - 1) as nat);
        match tree.schemas@[n - 1].1.name {
            Some(name) => before.push((name@, tree.schemas@[n - 1].1)),
            None => before,
        }
    }
}

/// The declarations of a module: those at its top, then all others by name.
pub open spec fn declarations(tree: AnalyzedTree) -> Seq<(Seq<char>, SchemaDef)> {
    top_declarations(tree, tree.root_schemas@.len()) + named_declarations(
        tree,
        tree.schemas@.len(),
    )
}

/// The declarations of the first `n` modules.
pub open spec fn all_declarations(trees: Seq<&AnalyzedTree>, n: nat) -> Seq<(Seq<char>, SchemaDef)>
    decreases n,
{
    if n == 0 {
        Seq::empty()
    } else {
        all_declarations(trees, (n - 1) as nat) + declarations(*trees[n - 1])
    }
}

/// The least index at or behind `from` of a declaration of the name.
pub open spec fn declaration_index(
    decls: Seq<(Seq<char>, SchemaDef)>,
    name: Seq<char>,
    from: int,
) -> Option<int>
    decreases decls.len() - from,
{
    if from < 0 || from >= decls.len() {
        None
    } else if decls[from].0 == name {
        Some(from)
    } else {
        declaration_index(decls, name, from + 1)
    }
}

/// What is found is the first declaration of the name.
pub proof fn lemma_declaration_index(
    decls: Seq<(Seq<char>, SchemaDef)>,
    name: Seq<char>,
    from: int,
)
    requires
        0 <= from,
    ensures
        match declaration_index(decls, name, from) {
            Some(i) => from <= i < decls.len() && decls[i].0 == name && forall|k: int|
                from <= k < i ==> (#[trigger] decls[k]).0 != name,
            None => forall|k: int| from <= k < decls.len() ==> (#[trigger] decls[k]).0 != name,
        },
    decreases decls.len() - from,
{
    if from < decls.len() && decls[from].0 != name {
        lemma_declaration_index(decls, name, from + 1);
    }
}

/// Finds declared types by name; the first declaration of a name counts.
pub struct SchemaResolver<'a> {
    pub by_name: Vec<(&'a String, &'a SchemaDef)>,
}

/// The declarations as names and bodies.
pub open spec fn declared_view(by_name: Seq<(&String, &SchemaDef)>) -> Seq<(Seq<char>, SchemaDef)> {
    Seq::new(by_name.len(), |i: int| (by_name[i].0@, *by_name[i].1))
}

/// Those of the first `n` declarations that are the first of their names.
pub open spec fn known_types<'a>(by_name: Seq<(&'a String, &'a SchemaDef)>, n: nat) -> Seq<
    (String, &'a SchemaDef),
>
    decreases n,
{
    if n == 0 {
        Seq::empty()
    } else {
        let before = known_types(by_name, (n - 1) as nat);
        let (name, def) = by_name[n - 1];
        if declaration_index(declared_view(by_name), name@, 0) == Some(n - 1) {
            before.push((*name, def))
        } else {
            before
        }
    }
}

impl<'a> SchemaResolver<'a> {
    /// The declarations, in order.
    pub open spec fn declared(self) -> Seq<(Seq<char>, SchemaDef)> {
        declared_view(self.by_name@)
    }

    /// Resolves by the declarations of one module.
    pub fn new(tree: &'a AnalyzedTree) -> (r: Self)
        ensures
            r.declared() == declarations(*tree),
    {
        let mut trees: Vec<&'a AnalyzedTree> = Vec::new();
        trees.push(tree);
        let r = Self::new_multi(&trees);
        assert(all_declarations(trees@, 0) =~= Seq::empty());
        assert(all_declarations(trees@, 1) =~= declarations(*tree)) by {
            reveal_with_fuel(all_declarations, 2);
        }
        r
    }

    /// Resolves by the declarations of several modules, in order.
    pub fn new_multi(trees: &Vec<&'a AnalyzedTree>) -> (r: Self)
        ensures
            r.declared() == all_declarations(trees@, trees@.len()),
    {
        let mut by_name: Vec<(&'a String, &'a SchemaDef)> = Vec::new();
        let mut t: usize = 0;
        assert(declared_view(by_name@) =~= Seq::empty());
        while t < trees.len()
            invariant
                t <= trees@.len(),
                declared_view(by_name@) == all_declarations(trees@, t as nat),
            decreases trees@.len() - t,
        {
            let tree: &'a AnalyzedTree = trees[t];
            let ghost start = declared_view(by_name@);
            let mut i: usize = 0;
            assert(declared_view(by_name@) =~= start + top_declarations(*tree, 0));
            while i < tree.root_schemas.len()
                invariant
                    i <= tree.root_schemas@.len(),
                    declared_view(by_name@) == start + top_declarations(*tree, i as nat),
                decreases tree.root_schemas@.len() - i,
            {
                let decl: &'a SchemaDecl = &tree.root_schemas[i];
                match find_body(&tree.schemas, decl.body) {
                    Some(def) => {
                        let ghost before = by_name@;
                        by_name.push((&decl.name, def));
                        assert(declared_view(by_name@) =~= declared_view(before).push(
                            (decl.name@, *def),
                        ));
                        assert(declared_view(by_name@) =~= start + top_declarations(
                            *tree,
                            (i + 1) as nat,
                        ));
                    },
                    None => {},
                }
                i += 1;
            }
            let ghost middle = declared_view(by_name@);
            let mut k: usize = 0;
            assert(declared_view(by_name@) =~= middle + named_declarations(*tree, 0));
            while k < tree.schemas.len()
                invariant
                    k <= tree.schemas@.len(),
                    declared_view(by_name@) == middle + named_declarations(*tree, k as nat),
                decreases tree.schemas@.len() - k,
            {
                let def: &'a SchemaDef = &tree.schemas[k].1;
                match &def.name {
                    Some(name) => {
                        let ghost before = by_name@;
                        by_name.push((name, def));
                        assert(declared_view(by_name@) =~= declared_view(before).push(
                            (name@, *def),
                        ));
                        assert(declared_view(by_name@) =~= middle + named_declarations(
                            *tree,
                            (k + 1) as nat,
                        ));
                    },
                    None => {},
                }
                k += 1;
            }
            assert(declared_view(by_name@) =~= start + declarations(*tree));
            t += 1;
        }
        SchemaResolver { by_name }
    }

    /// The first declaration of a name.
    pub fn resolve(&self, name: &str) -> (r: Option<&'a SchemaDef>)
        ensures
            match r {
                Some(d) => declaration_index(self.declared(), name@, 0) matches Some(i) && 0 <= i
                    < self.declared().len() && self.declared()[i].1 == *d,
                None => declaration_index(self.declared(), name@, 0) is None,
            },
    {
        match self.position(name) {
            Some(i) => Some(self.by_name[i].1),
            None => None,
        }
    }

    fn position(&self, name: &str) -> (r: Option<usize>)
        ensures
            match r {
                Some(i) => i < self.by_name@.len() && declaration_index(self.declared(), name@, 0)
                    == Some(i as int),
                None => declaration_index(self.declared(), name@, 0) is None,
            },
    {
        let mut i: usize = 0;
        while i < self.by_name.len()
            invariant
                i <= self.by_name@.len(),
                declaration_index(self.declared(), name@, 0) == declaration_index(
                    self.declared(),
                    name@,
                    i as int,
                ),
            decreases self.by_name@.len() - i,
        {
            if same_text(self.by_name[i].0.as_str(), name) {
                return Some(i);
            }
            i += 1;
        }
        None
    }

    /// The table of the declared types: each name stands for its first
    /// declaration.
    pub fn types(&self) -> (r: SchemaTable<'a>)
        ensures
            r.entries@ == known_types(self.by_name@, self.by_name@.len()),
    {
        let mut entries: Vec<(String, &'a SchemaDef)> = Vec::new();
        let mut i: usize = 0;
        while i < self.by_name.len()
            invariant
                i <= self.by_name@.len(),
                entries@ == known_types(self.by_name@, i as nat),
            decreases self.by_name@.len() - i,
        {
            let name: &'a String = self.by_name[i].0;
            let def: &'a SchemaDef = self.by_name[i].1;
            let first: bool = match self.position(name.as_str()) {
                Some(k) => k == i,
                None => false,
            };
            if first {
                entries.push((name.clone(), def));
            }
            i += 1;
        }
        SchemaTable { entries }
    }
}

/// What a module declares before others is what its names stand for.
pub proof fn law_earlier_declaration_wins(
    a: Seq<(Seq<char>, SchemaDef)>,
    b: Seq<(Seq<char>, SchemaDef)>,
    name: Seq<char>,
)
    ensures
        match declaration_index(a, name, 0) {
            Some(i) => declaration_index(a + b, name, 0) == Some(i) && (a + b)[i] == a[i],
            None => match declaration_index(b, name, 0) {
                Some(i) => declaration_index(a + b, name, 0) == Some(a.len() + i) && (a + b)[a.len()
                    + i] == b[i],
                None => declaration_index(a + b, name, 0) is None,
            },
        },
{
    lemma_declaration_index(a, name, 0);
    lemma_declaration_index(b, name, 0);
    lemma_declaration_index(a + b, name, 0);
    let ab = a + b;
    match declaration_index(ab, name, 0) {
        Some(i) => {
            if i < a.len() {
                assert(a[i] == ab[i]);
            } else {
                assert(b[i - a.len()] == ab[i]);
            }
        },
        None => {},
    }
    match declaration_index(a, name, 0) {
        Some(k) => {
            assert(ab[k] == a[k]);
        },
        None => match declaration_index(b, name, 0) {
            Some(k) => {
                assert(ab[a.len() + k] == b[k]);
            },
            None => {},
        },
    }
}

// ---------------------------------------------------------------------------
// Contradictions between modules.
// ---------------------------------------------------------------------------

/// The canonical forms of two record types differ.
pub fn schema_hashes_differ(a: &Schema, b: &Schema) -> (r: bool)
    ensures
        r == (schema_view(*a) != schema_view(*b)),
{
    !same_schema(a, b)
}

/// A record type declared at the top of a module.
struct TopSchema<'a> {
    module: &'a String,
    name: &'a String,
    schema: &'a Schema,
}

/// A record type declared at the top of a module: the module, the name, and
/// the canonical form.
pub ghost struct Sighting {
    pub module: Seq<char>,
    pub name: Seq<char>,
    pub schema: SchemaView,
}

spec fn tops_view(tops: Seq<TopSchema<'_>>) -> Seq<Sighting> {
    Seq::new(
        tops.len(),
        |i: int|
            Sighting {
                module: tops[i].module@,
                name: tops[i].name@,
                schema: schema_view(*tops[i].schema),
            },
    )
}

/// The record types among the first `n` declarations at the top of a module
/// that have a canonical form there.
pub open spec fn module_sightings(module: Seq<char>, tree: AnalyzedTree, n: nat) -> Seq<Sighting>
    decreases n,
{
    if n == 0 {
        Seq::empty()
    } else {
        let before = module_sightings(module, tree, (n - 1) as nat);
        let decl = tree.root_schemas@[n - 1];
        match body_index(tree.schemas@, decl.body, 0) {
            Some(i) => match tree.schemas@[i].1.local {
                Some(s) => before.push(
                    Sighting { module, name: decl.name@, schema: schema_view(s) },
                ),
                None => before,
            },
            None => before,
        }
    }
}

/// The record types at the tops of the first `n` modules.
pub open spec fn sightings(modules: Seq<(Seq<char>, AnalyzedTree)>, n: nat) -> Seq<Sighting>
    decreases n,
{
    if n == 0 {
        Seq::empty()
    } else {
        let (module, tree) = modules[n - 1];
        sightings(modules, (n - 1) as nat) + module_sightings(
            module,
            tree,
            tree.root_schemas@.len(),
        )
    }
}

/// The least index at or behind `from` of a record type of the name.
pub open spec fn sighting_index(seen: Seq<Sighting>, name: Seq<char>, from: int) -> Option<int>
    decreases seen.len() - from,
{
    if from < 0 || from >= seen.len() {
        None
    } else if seen[from].name == name {
        Some(from)
    } else {
        sighting_index(seen, name, from + 1)
    }
}

/// What is found is the first of its name.
pub proof fn lemma_sighting_index(seen: Seq<Sighting>, name: Seq<char>, from: int)
    requires
        0 <= from,
    ensures
        match sighting_index(seen, name, from) {
            Some(i) => from <= i < seen.len() && seen[i].name == name,
            None => forall|k: int| from <= k < seen.len() ==> (#[trigger] seen[k]).name != name,
        },
    decreases seen.len() - from,
{
    if from < seen.len() && seen[from].name != name {
        lemma_sighting_index(seen, name, from + 1);
    }
}

/// The record type at `j` differs from the first of its name.
pub open spec fn contradicts(seen: Seq<Sighting>, j: int) -> bool {
    sighting_index(seen, seen[j].name, 0) matches Some(i) && seen[i].schema != seen[j].schema
}

/// The least index at or behind `from` of a record type that contradicts an
/// earlier one.
pub open spec fn first_contradiction(seen: Seq<Sighting>, from: int) -> Option<int>
    decreases seen.len() - from,
{
    if from < 0 || from >= seen.len() {
        None
    } else if contradicts(seen, from) {
        Some(from)
    } else {
        first_contradiction(seen, from + 1)
    }
}

/// The error for the contradiction at `j`.
pub open spec fn contradiction_error(seen: Seq<Sighting>, j: int) -> ErrorView {
    ErrorView::DuplicateSchemaAcrossFiles {
        name: seen[j].name,
        first_module: seen[sighting_index(seen, seen[j].name, 0)->0].module,
        second_module: seen[j].module,
    }
}

fn collect_tops<'a>(modules: &Vec<LoadedModule<'a>>) -> (r: Vec<TopSchema<'a>>)
    ensures
        tops_view(r@) == sightings(modules_view(modules@), modules@.len()),
{
    let mut out: Vec<TopSchema<'a>> = Vec::new();
    let mut m: usize = 0;
    assert(tops_view(out@) =~= Seq::empty());
    while m < modules.len()
        invariant
            m <= modules@.len(),
            tops_view(out@) == sightings(modules_view(modules@), m as nat),
        decreases modules@.len() - m,
    {
        let id: &'a String = modules[m].id;
        let tree: &'a AnalyzedTree = modules[m].tree;
        let ghost start = tops_view(out@);
        let mut i: usize = 0;
        assert(tops_view(out@) =~= start + module_sightings(id@, *tree, 0));
        while i < tree.root_schemas.len()
            invariant
                i <= tree.root_schemas@.len(),
                tops_view(out@) == start + module_sightings(id@, *tree, i as nat),
            decreases tree.root_schemas@.len() - i,
        {
            let decl: &'a SchemaDecl = &tree.root_schemas[i];
            match find_body(&tree.schemas, decl.body) {
                Some(def) => match &def.local {
                    Some(schema) => {
                        let ghost before = out@;
                        out.push(TopSchema { module: id, name: &decl.name, schema });
                        assert(tops_view(out@) =~= tops_view(before).push(
                            Sighting {
                                module: id@,
                                name: decl.name@,
                                schema: schema_view(*schema),
                            },
                        ));
                        assert(tops_view(out@) =~= start + module_sightings(
                            id@,
                            *tree,
                            (i + 1) as nat,
                        ));
                    },
                    None => {},
                },
                None => {},
            }
            i += 1;
        }
        m += 1;
    }
    out
}

/// Reports a name that two modules declare at their tops as record types of
/// different canonical forms.
pub fn detect_cross_file_schema_conflicts(reachable: &Vec<LoadedModule<'_>>) -> (r: Result<
    (),
    LoweringError,
>)
    ensures
        ({
            let seen = sightings(modules_view(reachable@), reachable@.len());
            match (r, first_contradiction(seen, 0)) {
                (Ok(_), None) => true,
                (Err(e), Some(j)) => e@ == contradiction_error(seen, j),
                _ => false,
            }
        }),
{
    let tops = collect_tops(reachable);
    let ghost seen = tops_view(tops@);
    let mut j: usize = 0;
    while j < tops.len()
        invariant
            j <= tops@.len(),
            seen == tops_view(tops@),
            seen == sightings(modules_view(reachable@), reachable@.len()),
            first_contradiction(seen, 0) == first_contradiction(seen, j as int),
        decreases tops@.len() - j,
    {
        let mut i: usize = 0;
        while i < j && *tops[i].name != *tops[j].name
            invariant
                i <= j,
                j < tops@.len(),
                seen == tops_view(tops@),
                sighting_index(seen, seen[j as int].name, 0) == sighting_index(
                    seen,
                    seen[j as int].name,
                    i as int,
                ),
            decreases j - i,
        {
            i += 1;
        }
        assert(sighting_index(seen, seen[j as int].name, 0) == Some(i as int));
        if schema_hashes_differ(tops[i].schema, tops[j].schema) {
            return Err(
                LoweringError::DuplicateSchemaAcrossFiles {
                    name: tops[j].name.clone(),
                    first_module: tops[i].module.clone(),
                    second_module: tops[j].module.clone(),
                },
            );
        }
        j += 1;
    }
    Ok(())
}

/// Modules without contradiction agree on every name: any two record types
/// declared under it have the same canonical form.
pub proof fn law_no_contradiction_means_agreement(seen: Seq<Sighting>, i: int, j: int)
    requires
        first_contradiction(seen, 0) is None,
        0 <= i < seen.len(),
        0 <= j < seen.len(),
        seen[i].name == seen[j].name,
    ensures
        seen[i].schema == seen[j].schema,
{
    lemma_no_contradiction(seen, 0, i);
    lemma_no_contradiction(seen, 0, j);
    lemma_sighting_index(seen, seen[i].name, 0);
}

proof fn lemma_no_contradiction(seen: Seq<Sighting>, from: int, i: int)
    requires
        first_contradiction(seen, from) is None,
        0 <= from <= i < seen.len(),
    ensures
        !contradicts(seen, i),
    decreases i - from,
{
    if from < i {
        lemma_no_contradiction(seen, from + 1, i);
    }
}

/// The least index at or behind `from` of a module other than the entry that
/// declares an entry point.
pub open spec fn other_main(
    modules: Seq<(Seq<char>, AnalyzedTree)>,
    entry: Seq<char>,
    from: int,
) -> Option<int>
    decreases modules.len() - from,
{
    if from < 0 || from >= modules.len() {
        None
    } else if modules[from].0 != entry && modules[from].1.main_signature is Some {
        Some(from)
    } else {
        other_main(modules, entry, from + 1)
    }
}

/// Reports a module other than the entry that declares an entry point.
pub fn detect_other_main(modules: &Vec<LoadedModule<'_>>, entry_module: &str) -> (r: Result<
    (),
    LoweringError,
>)
    ensures
        match (r, other_main(modules_view(modules@), entry_module@, 0)) {
            (Ok(_), None) => true,
            (Err(e), Some(i)) => e@ == (ErrorView::MultipleMainDirectives {
                entry_module: entry_module@,
                other_module: modules_view(modules@)[i].0,
            }),
            _ => false,
        },
{
    let mut i: usize = 0;
    while i < modules.len()
        invariant
            i <= modules@.len(),
            other_main(modules_view(modules@), entry_module@, 0) == other_main(
                modules_view(modules@),
                entry_module@,
                i as int,
            ),
        decreases modules@.len() - i,
    {
        if !same_text(modules[i].id.as_str(), entry_module) {
            if modules[i].tree.main_signature.is_some() {
                return Err(
                    LoweringError::MultipleMainDirectives {
                        entry_module: entry_module.to_owned(),
                        other_module: modules[i].id.clone(),
                    },
                );
            }
        }
        i += 1;
    }
    Ok(())
}

// ---------------------------------------------------------------------------
// One module.
// ---------------------------------------------------------------------------

/// No two declarations at the top of a module bear the same name.
pub open spec fn distinct_tops(tree: AnalyzedTree) -> bool {
    forall|i: int, j: int|
        0 <= i < j < tree.root_schemas@.len() ==> (#[trigger] tree.root_schemas@[i]).name@ != (
        #[trigger] tree.root_schemas@[j]).name@
}

proof fn lemma_nothing_new(
    ws: WorkspaceTree,
    found: Seq<Seq<char>>,
    edges: Seq<Seq<char>>,
    from: int,
)
    requires
        0 <= from,
        forall|module: Seq<char>| ws.modules.has(module) ==> #[trigger] found.contains(module),
    ensures
        with_imports(ws, found, edges, from) == found,
    decreases edges.len() - from,
{
    if from < edges.len() {
        lemma_nothing_new(ws, found, edges, from + 1);
    }
}

/// The record types of one module bear the names of its first declarations.
proof fn lemma_sighted_names(module: Seq<char>, tree: AnalyzedTree, n: nat)
    requires
        distinct_tops(tree),
        n <= tree.root_schemas@.len(),
    ensures
        ({
            let seen = module_sightings(module, tree, n);
            &&& forall|i: int|
                0 <= i < seen.len() ==> exists|k: int|
                    0 <= k < n && (#[trigger] seen[i]).name == (
                    #[trigger] tree.root_schemas@[k]).name@
            &&& forall|i: int, j: int|
                0 <= i < j < seen.len() ==> (#[trigger] seen[i]).name != (#[trigger] seen[j]).name
        }),
    decreases n,
{
    if n > 0 {
        lemma_sighted_names(module, tree, (n - 1) as nat);
        let before = module_sightings(module, tree, (n - 1) as nat);
        let seen = module_sightings(module, tree, n);
        let last = tree.root_schemas@[n - 1];
        assert forall|i: int| 0 <= i < seen.len() implies exists|k: int|
            0 <= k < n && (#[trigger] seen[i]).name == (#[trigger] tree.root_schemas@[k]).name@ by {
            if i < before.len() {
                let k = choose|k: int|
                    0 <= k < n - 1 && before[i].name == (
                    #[trigger] tree.root_schemas@[k]).name@;
                assert(seen[i].name == tree.root_schemas@[k].name@);
            } else {
                assert(seen[i].name == last.name@);
            }
        }
        assert forall|i: int, j: int| 0 <= i < j < seen.len() implies (
        #[trigger] seen[i]).name != (#[trigger] seen[j]).name by {
            if j < before.len() {
                assert(before[i].name != before[j].name);
            } else {
                let k = choose|k: int|
                    0 <= k < n - 1 && before[i].name == (
                    #[trigger] tree.root_schemas@[k]).name@;
                assert(tree.root_schemas@[k].name@ != last.name@);
            }
        }
    }
}

proof fn lemma_names_agree(seen: Seq<Sighting>, from: int)
    requires
        0 <= from,
        forall|i: int, j: int|
            0 <= i < j < seen.len() ==> (#[trigger] seen[i]).name != (#[trigger] seen[j]).name,
    ensures
        first_contradiction(seen, from) is None,
    decreases seen.len() - from,
{
    if from < seen.len() {
        lemma_sighting_index(seen, seen[from].name, 0);
        lemma_names_agree(seen, from + 1);
    }
}

/// A workspace that holds one module reaches that module and no other, and
/// nothing in it contradicts anything else or declares another entry point,
/// whatever the module imports.
pub proof fn law_one_module_stands_alone(ws: WorkspaceTree, entry: Seq<char>)
    requires
        ws.modules.entries@.len() == 1,
        ws.modules.entries@[0].0@ == entry,
        distinct_tops(ws.modules.entries@[0].1),
    ensures
        ({
            let names = reachable(ws, entry);
            let modules = loaded(ws, names, names.len());
            let seen = sightings(modules, modules.len());
            &&& names == seq![entry]
            &&& modules == seq![(entry, ws.modules.entries@[0].1)]
            &&& first_contradiction(seen, 0) is None
            &&& other_main(modules, entry, 0) is None
        }),
{
    let start = seq![entry];
    let tree = ws.modules.entries@[0].1;
    assert forall|module: Seq<char>| ws.modules.has(module) implies #[trigger] start.contains(
        module,
    ) by {
        assert(start[0] == entry);
    }
    lemma_nothing_new(ws, start, imports_of(ws, entry), 0);
    reveal_with_fuel(followed, 3);
    let names = reachable(ws, entry);
    assert(names == start);
    reveal_with_fuel(loaded, 3);
    reveal_with_fuel(name_index, 2);
    let modules = loaded(ws, names, 1);
    assert(modules =~= seq![(entry, tree)]);
    let seen = sightings(modules, 1);
    reveal_with_fuel(sightings, 2);
    assert(seen =~= module_sightings(entry, tree, tree.root_schemas@.len()));
    lemma_sighted_names(entry, tree, tree.root_schemas@.len());
    lemma_names_agree(seen, 0);
    reveal_with_fuel(other_main, 2);
}

} // verus!
