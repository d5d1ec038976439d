//! The order in which the fields of a returned dictionary are emitted.

use vstd::prelude::*;

use crate::ast::{key_is, key_text, token_key_display, Node, TokenKey, TokenRange};
use crate::components::{
    anon_dict_ref_components, graph, in_bounds, labels_of, law_components, targets,
};
use crate::error::{ErrorView, LoweringError};
use crate::field_refs::{
    collect_anon_dict_ref_edges, edge_names, expr_reads_main_param, reads_param,
};
use crate::ir::texts;
use crate::ref_cycle::find_ref_cycle;
use crate::schedule::{
    cycle, drain, emit_sequence, law_order_is_topological, law_stuck_iff_cycle, lemma_turned_cycle,
    lemma_waiting_cycle,
};
use crate::text::{join3, same_text};

verus! {

/// The first entry whose key is the plain name.
pub open spec fn key_index(pairs: Seq<(TokenKey, Node)>, name: Seq<char>, from: int) -> Option<int>
    decreases pairs.len() - from,
{
    if from < 0 || from >= pairs.len() {
        None
    } else if key_is(pairs[from].0, name) {
        Some(from)
    } else {
        key_index(pairs, name, from + 1)
    }
}

/// The plain names among the keys.
pub open spec fn field_keys(pairs: Seq<(TokenKey, Node)>) -> Seq<String>
    decreases pairs.len(),
{
    if pairs.len() == 0 {
        Seq::empty()
    } else {
        let rest = field_keys(pairs.drop_last());
        match pairs.last().0 {
            TokenKey::String(s, _, _) => rest.push(s),
            _ => rest,
        }
    }
}

/// The entries that the names stand for.
pub open spec fn resolved(pairs: Seq<(TokenKey, Node)>, names: Seq<Seq<char>>) -> Seq<int>
    decreases names.len(),
{
    if names.len() == 0 {
        Seq::empty()
    } else {
        let rest = resolved(pairs, names.drop_last());
        match key_index(pairs, names.last(), 0) {
            Some(i) => rest.push(i),
            None => rest,
        }
    }
}

/// The sibling fields that the value of entry `i` refers to.
pub open spec fn sibling_names(pairs: Seq<(TokenKey, Node)>, i: int) -> Seq<Seq<char>> {
    edge_names(*pairs[i].1.expr, field_keys(pairs), Seq::empty())
}

/// For each entry, the entries that its value refers to.
pub open spec fn dict_graph(pairs: Seq<(TokenKey, Node)>) -> Seq<Seq<int>> {
    Seq::new(pairs.len(), |i: int| resolved(pairs, sibling_names(pairs, i)))
}

proof fn lemma_key_index(pairs: Seq<(TokenKey, Node)>, name: Seq<char>, from: int)
    requires
        0 <= from,
    ensures
        key_index(pairs, name, from) matches Some(i) ==> 0 <= i < pairs.len(),
    decreases pairs.len() - from,
{
    if from < pairs.len() {
        lemma_key_index(pairs, name, from + 1);
    }
}

proof fn lemma_resolved_in_bounds(pairs: Seq<(TokenKey, Node)>, names: Seq<Seq<char>>)
    ensures
        forall|k: int|
            0 <= k < resolved(pairs, names).len() ==> 0 <= #[trigger] resolved(pairs, names)[k]
                < pairs.len(),
    decreases names.len(),
{
    if names.len() > 0 {
        lemma_resolved_in_bounds(pairs, names.drop_last());
        lemma_key_index(pairs, names.last(), 0);
        let rest = resolved(pairs, names.drop_last());
        let all = resolved(pairs, names);
        assert forall|k: int| 0 <= k < all.len() implies 0 <= #[trigger] all[k] < pairs.len() by {
            if k < rest.len() {
                assert(all[k] == rest[k]);
            }
        }
    }
}

/// The references lead to entries of the dictionary.
pub proof fn lemma_graph_in_bounds(pairs: Seq<(TokenKey, Node)>)
    ensures
        in_bounds(dict_graph(pairs), pairs.len() as int),
{
    assert forall|i: int| 0 <= i < pairs.len() implies #[trigger] dict_graph(pairs)[i] == resolved(
        pairs,
        sibling_names(pairs, i),
    ) && forall|k: int|
        0 <= k < dict_graph(pairs)[i].len() ==> 0 <= #[trigger] dict_graph(pairs)[i][k]
            < pairs.len() by {
        lemma_resolved_in_bounds(pairs, sibling_names(pairs, i));
    }
}

/// For each entry, whether its value refers to a sibling.
pub open spec fn bearing(pairs: Seq<(TokenKey, Node)>) -> Seq<bool> {
    Seq::new(pairs.len(), |i: int| sibling_names(pairs, i).len() > 0)
}

/// For each entry, whether its value reads an entry parameter.
pub open spec fn param_reads(pairs: Seq<(TokenKey, Node)>, params: Seq<String>) -> Seq<bool> {
    Seq::new(pairs.len(), |i: int| reads_param(*pairs[i].1.expr, params))
}

/// Some entry of the component reads an entry parameter.
pub open spec fn component_reads(labels: Seq<int>, reads: Seq<bool>, label: int) -> bool {
    exists|m: int| 0 <= m < reads.len() && #[trigger] reads[m] && labels[m] == label
}

/// Entry `i` refers forward to an entry that itself refers to a sibling, in a
/// component that reads an entry parameter.
pub open spec fn forward_hit(
    g: Seq<Seq<int>>,
    bears: Seq<bool>,
    reads: Seq<bool>,
    labels: Seq<int>,
    i: int,
) -> bool {
    &&& component_reads(labels, reads, labels[i])
    &&& exists|k: int| 0 <= k < g[i].len() && (#[trigger] g[i][k]) > i && bears[g[i][k]]
}

/// The first entry at or behind `from` with such a reference.
pub open spec fn first_forward_hit(
    g: Seq<Seq<int>>,
    bears: Seq<bool>,
    reads: Seq<bool>,
    labels: Seq<int>,
    from: int,
) -> Option<int>
    decreases g.len() - from,
{
    if from < 0 || from >= g.len() {
        None
    } else if forward_hit(g, bears, reads, labels, from) {
        Some(from)
    } else {
        first_forward_hit(g, bears, reads, labels, from + 1)
    }
}

/// The entry that the forward rule refuses, if there is one.
pub open spec fn refused_forward(pairs: Seq<(TokenKey, Node)>, params: Seq<String>) -> Option<int> {
    let g = dict_graph(pairs);
    first_forward_hit(
        g,
        bearing(pairs),
        param_reads(pairs, params),
        labels_of(pairs.len(), g),
        0,
    )
}

/// The name of a key: the plain name, or what diagnostics show.
pub open spec fn key_name(key: TokenKey) -> Seq<char> {
    match key {
        TokenKey::String(s, _, _) => s@,
        _ => key_text(key),
    }
}

/// The source span of a plain name, or the span of the whole dictionary.
pub open spec fn key_range(key: TokenKey, range: TokenRange) -> TokenRange {
    match key {
        TokenKey::String(_, r, _) => r,
        _ => range,
    }
}

fn named_key(key: &TokenKey) -> (r: String)
    ensures
        r@ == key_name(*key),
{
    match key {
        TokenKey::String(s, _, _) => s.clone(),
        other => token_key_display(other),
    }
}

/// The error for a refused forward reference.
pub open spec fn forward_error(key: TokenKey, range: TokenRange) -> ErrorView {
    ErrorView::UnsupportedExpr {
        kind: "AnonDictReturn(field `"@ + key_name(key)
            + "`: forward reference into a reference-bearing field whose component reads a `#main` parameter — the tree-walk oracle cannot resolve this shape consistently)"@,
        range: key_range(key, range),
    }
}

/// The names along a cycle in which each entry is referred to by the next.
pub open spec fn names_cycle(pairs: Seq<(TokenKey, Node)>, names: Seq<Seq<char>>) -> bool {
    exists|p: Seq<int>| #[trigger]
        cycle(dict_graph(pairs), p.reverse()) && names == Seq::new(
            p.len(),
            |k: int| key_name(pairs[p[k]].0),
        )
}

/// The order of emission, or why there is none: a cycle, or else a refused
/// forward reference.
pub open spec fn emit_order_outcome(
    pairs: Seq<(TokenKey, Node)>,
    params: Seq<String>,
    range: TokenRange,
    r: Result<Seq<int>, ErrorView>,
) -> bool {
    let order = emit_sequence(dict_graph(pairs));
    if order.len() != pairs.len() {
        match r {
            Ok(_) => false,
            Err(e) => match e {
                ErrorView::CyclicFieldDependency {
                    schema,
                    cycle,
                    range: at,
                } => schema == "Ret"@ && at == range && names_cycle(pairs, cycle),
                _ => false,
            },
        }
    } else {
        match refused_forward(pairs, params) {
            Some(i) => r == Err::<Seq<int>, ErrorView>(forward_error(pairs[i].0, range)),
            None => r == Ok::<Seq<int>, ErrorView>(order),
        }
    }
}

/// The mathematical value of an order or an error.
pub open spec fn order_view(r: Result<Vec<usize>, LoweringError>) -> Result<Seq<int>, ErrorView> {
    match r {
        Ok(order) => Ok(targets(order)),
        Err(e) => Err(e@),
    }
}

fn collect_field_keys(pairs: &Vec<(TokenKey, Node)>) -> (r: Vec<String>)
    ensures
        r@ == field_keys(pairs@),
{
    let mut out: Vec<String> = Vec::new();
    let mut i: usize = 0;
    assert(pairs@.take(0) =~= Seq::empty());
    while i < pairs.len()
        invariant
            i <= pairs.len(),
            out@ == field_keys(pairs@.take(i as int)),
        decreases pairs.len() - i,
    {
        assert(pairs@.take(i + 1).drop_last() =~= pairs@.take(i as int));
        assert(pairs@.take(i + 1).last() == pairs@[i as int]);
        match &pairs[i].0 {
            TokenKey::String(s, _, _) => out.push(s.clone()),
            _ => {},
        }
        i += 1;
    }
    assert(pairs@.take(pairs@.len() as int) =~= pairs@);
    out
}

fn find_key(pairs: &Vec<(TokenKey, Node)>, name: &String) -> (r: Option<usize>)
    ensures
        match r {
            Some(i) => key_index(pairs@, name@, 0) == Some(i as int) && i < pairs@.len(),
            None => key_index(pairs@, name@, 0) is None,
        },
{
    let mut i: usize = 0;
    while i < pairs.len()
        invariant
            i <= pairs.len(),
            key_index(pairs@, name@, 0) == key_index(pairs@, name@, i as int),
        decreases pairs.len() - i,
    {
        match &pairs[i].0 {
            TokenKey::String(s, _, _) => {
                if same_text(s.as_str(), name.as_str()) {
                    return Some(i);
                }
            },
            _ => {},
        }
        i += 1;
    }
    None
}

fn resolve_names(pairs: &Vec<(TokenKey, Node)>, names: &Vec<String>) -> (r: Vec<usize>)
    ensures
        targets(r) == resolved(pairs@, texts(names@)),
        forall|k: int| 0 <= k < r@.len() ==> (#[trigger] r@[k]) < pairs@.len(),
{
    let mut out: Vec<usize> = Vec::new();
    let ghost all = texts(names@);
    let mut i: usize = 0;
    assert(all.take(0) =~= Seq::empty());
    assert(targets(out) =~= Seq::empty());
    while i < names.len()
        invariant
            i <= names.len(),
            all == texts(names@),
            targets(out) == resolved(pairs@, all.take(i as int)),
            forall|k: int| 0 <= k < out@.len() ==> (#[trigger] out@[k]) < pairs@.len(),
        decreases names.len() - i,
    {
        assert(all.take(i + 1).drop_last() =~= all.take(i as int));
        assert(all.take(i + 1).last() == names@[i as int]@);
        match find_key(pairs, &names[i]) {
            Some(j) => {
                let ghost before = targets(out);
                out.push(j);
                assert(targets(out) =~= before.push(j as int));
            },
            None => {},
        }
        i += 1;
    }
    assert(all.take(all.len() as int) =~= all);
    out
}

/// What the rules on references read of the entries.
struct DictRefs {
    refs: Vec<Vec<usize>>,
    bearing: Vec<bool>,
    reads: Vec<bool>,
}

fn read_refs(pairs: &Vec<(TokenKey, Node)>, main_param_names: &Vec<String>) -> (r: DictRefs)
    ensures
        graph(r.refs@) == dict_graph(pairs@),
        in_bounds(dict_graph(pairs@), pairs@.len() as int),
        r.bearing@ == bearing(pairs@),
        r.reads@ == param_reads(pairs@, main_param_names@),
{
    let keys: Vec<String> = collect_field_keys(pairs);
    let mut refs: Vec<Vec<usize>> = Vec::new();
    let mut bears: Vec<bool> = Vec::new();
    let mut reads: Vec<bool> = Vec::new();
    let mut i: usize = 0;
    while i < pairs.len()
        invariant
            i <= pairs.len(),
            keys@ == field_keys(pairs@),
            refs@.len() == i,
            bears@.len() == i,
            reads@.len() == i,
            forall|x: int|
                0 <= x < i ==> targets(#[trigger] refs@[x]) == resolved(
                    pairs@,
                    sibling_names(pairs@, x),
                ),
            forall|x: int, k: int|
                0 <= x < i && 0 <= k < refs@[x]@.len() ==> (#[trigger] refs@[x]@[k])
                    < pairs@.len(),
            forall|x: int|
                0 <= x < i ==> (#[trigger] bears@[x]) == (sibling_names(pairs@, x).len() > 0),
            forall|x: int|
                0 <= x < i ==> (#[trigger] reads@[x]) == reads_param(
                    *pairs@[x].1.expr,
                    main_param_names@,
                ),
        decreases pairs.len() - i,
    {
        let value = &pairs[i].1;
        let mut names: Vec<String> = Vec::new();
        assert(texts(names@) =~= Seq::empty());
        collect_anon_dict_ref_edges(&*value.expr, &keys, &mut names);
        assert(texts(names@) == sibling_names(pairs@, i as int));
        assert(texts(names@).len() == names@.len());
        bears.push(names.len() > 0);
        reads.push(expr_reads_main_param(&*value.expr, main_param_names));
        refs.push(resolve_names(pairs, &names));
        i += 1;
    }
    assert(graph(refs@) =~= dict_graph(pairs@)) by {
        assert forall|x: int| 0 <= x < pairs@.len() implies graph(refs@)[x] == dict_graph(
            pairs@,
        )[x] by {
            assert(targets(refs@[x]) == resolved(pairs@, sibling_names(pairs@, x)));
        }
    }
    assert forall|x: int, k: int|
        0 <= x < dict_graph(pairs@).len() && 0 <= k < dict_graph(pairs@)[x].len() implies 0
        <= #[trigger] dict_graph(pairs@)[x][k] < pairs@.len() by {
        assert(graph(refs@)[x][k] == refs@[x]@[k]);
    }
    assert(bears@ =~= bearing(pairs@));
    assert(reads@ =~= param_reads(pairs@, main_param_names@));
    DictRefs { refs, bearing: bears, reads }
}

fn reads_in_component(component: &Vec<usize>, reads: &Vec<bool>, label: usize) -> (r: bool)
    requires
        component@.len() == reads@.len(),
    ensures
        r == component_reads(targets(*component), reads@, label as int),
{
    let mut m: usize = 0;
    while m < reads.len()
        invariant
            m <= reads@.len(),
            component@.len() == reads@.len(),
            forall|x: int|
                0 <= x < m ==> !(#[trigger] reads@[x] && targets(*component)[x] == label),
        decreases reads@.len() - m,
    {
        if reads[m] && component[m] == label {
            assert(reads@[m as int] && targets(*component)[m as int] == label);
            return true;
        }
        m += 1;
    }
    false
}

fn find_forward_hit(r: &DictRefs, component: &Vec<usize>) -> (hit: Option<usize>)
    requires
        in_bounds(graph(r.refs@), r.refs@.len() as int),
        r.bearing@.len() == r.refs@.len(),
        r.reads@.len() == r.refs@.len(),
        component@.len() == r.refs@.len(),
    ensures
        match hit {
            Some(i) => i < r.refs@.len() && first_forward_hit(
                graph(r.refs@),
                r.bearing@,
                r.reads@,
                targets(*component),
                0,
            ) == Some(i as int),
            None => first_forward_hit(
                graph(r.refs@),
                r.bearing@,
                r.reads@,
                targets(*component),
                0,
            ) is None,
        },
{
    let ghost g = graph(r.refs@);
    let ghost labels = targets(*component);
    let mut i: usize = 0;
    while i < r.refs.len()
        invariant
            i <= r.refs@.len(),
            g == graph(r.refs@),
            labels == targets(*component),
            in_bounds(g, r.refs@.len() as int),
            r.bearing@.len() == r.refs@.len(),
            r.reads@.len() == r.refs@.len(),
            component@.len() == r.refs@.len(),
            first_forward_hit(g, r.bearing@, r.reads@, labels, 0) == first_forward_hit(
                g,
                r.bearing@,
                r.reads@,
                labels,
                i as int,
            ),
        decreases r.refs@.len() - i,
    {
        let refs = &r.refs[i];
        let mut found: bool = false;
        let mut k: usize = 0;
        while k < refs.len()
            invariant
                i < r.refs@.len(),
                k <= refs@.len(),
                *refs == r.refs@[i as int],
                g == graph(r.refs@),
                in_bounds(g, r.refs@.len() as int),
                r.bearing@.len() == r.refs@.len(),
                found == exists|m: int|
                    0 <= m < k && (#[trigger] g[i as int][m]) > i && r.bearing@[g[i as int][m]],
            decreases refs@.len() - k,
        {
            let j: usize = refs[k];
            assert(g[i as int][k as int] == j);
            if j > i && r.bearing[j] {
                found = true;
            }
            k += 1;
        }
        let reads = reads_in_component(component, &r.reads, component[i]);
        assert(labels[i as int] == component@[i as int]);
        if found && reads {
            return Some(i);
        }
        i += 1;
    }
    None
}

/// The names along a cycle of references.
fn find_anon_dict_ref_cycle(
    pairs: &Vec<(TokenKey, Node)>,
    outgoing: &Vec<Vec<usize>>,
    incoming: &Vec<usize>,
) -> (r: Vec<String>)
    requires
        pairs@.len() == outgoing@.len(),
        in_bounds(graph(outgoing@), outgoing@.len() as int),
        incoming@.len() == outgoing@.len(),
    ensures
        (exists|p: Seq<int>| #[trigger]
            cycle(graph(outgoing@), p) && incoming@[p[0]] != 0) ==> exists|p: Seq<int>| #[trigger]
            cycle(graph(outgoing@), p) && texts(r@) == Seq::new(
                p.len(),
                |k: int| key_name(pairs@[p[k]].0),
            ),
{
    let mut out: Vec<String> = Vec::new();
    match find_ref_cycle(outgoing, incoming) {
        Some(c) => {
            let ghost p = targets(c);
            assert(cycle(graph(outgoing@), p));
            let mut k: usize = 0;
            while k < c.len()
                invariant
                    k <= c@.len(),
                    p == targets(c),
                    pairs@.len() == outgoing@.len(),
                    cycle(graph(outgoing@), p),
                    out@.len() == k,
                    forall|x: int|
                        0 <= x < k ==> (#[trigger] out@[x])@ == key_name(pairs@[p[x]].0),
                decreases c@.len() - k,
            {
                assert(0 <= p[k as int] < graph(outgoing@).len());
                out.push(named_key(&pairs[c[k]].0));
                k += 1;
            }
            assert(texts(out@) =~= Seq::new(p.len(), |k: int| key_name(pairs@[p[k]].0)));
        },
        None => {},
    }
    out
}

/// Decides the order in which the fields are emitted, so that a reference to a
/// sibling, earlier or later, finds it computed.
pub fn anon_dict_emit_order(
    pairs: &Vec<(TokenKey, Node)>,
    main_param_names: &Vec<String>,
    range: TokenRange,
) -> (r: Result<Vec<usize>, LoweringError>)
    ensures
        emit_order_outcome(pairs@, main_param_names@, range, order_view(r)),
        r matches Ok(order) ==> forall|k: int|
            0 <= k < order@.len() ==> (#[trigger] order@[k]) < pairs@.len(),
{
    let refs = read_refs(pairs, main_param_names);
    let ghost g = dict_graph(pairs@);
    let drained = drain(&refs.refs);
    proof {
        law_order_is_topological(g);
        law_stuck_iff_cycle(g);
        assert(targets(drained.order).len() == drained.order@.len());
        assert forall|k: int| 0 <= k < drained.order@.len() implies (
        #[trigger] drained.order@[k]) < pairs@.len() by {
            assert(targets(drained.order)[k] == drained.order@[k]);
        }
    }
    if drained.order.len() != pairs.len() {
        let ghost h = graph(drained.outgoing@);
        proof {
            lemma_waiting_cycle(g, h, drained.incoming@);
        }
        let names: Vec<String> = find_anon_dict_ref_cycle(
            pairs,
            &drained.outgoing,
            &drained.incoming,
        );
        proof {
            let p = choose|p: Seq<int>| #[trigger]
                cycle(h, p) && texts(names@) == Seq::new(
                    p.len(),
                    |k: int| key_name(pairs@[p[k]].0),
                );
            lemma_turned_cycle(h, g, p);
        }
        return Err(
            LoweringError::CyclicFieldDependency { schema: "Ret".to_owned(), cycle: names, range },
        );
    }
    let component: Vec<usize> = anon_dict_ref_components(pairs.len(), &refs.refs);
    proof {
        if pairs@.len() > 0 {
            law_components(pairs@.len(), g, 0, 0);
        } else {
            assert(g =~= Seq::empty());
        }
        assert(targets(component).len() == component@.len());
        assert(graph(refs.refs@).len() == refs.refs@.len());
    }
    match find_forward_hit(&refs, &component) {
        Some(i) => {
            let key = &pairs[i].0;
            let at: TokenRange = match key {
                TokenKey::String(_, r, _) => *r,
                _ => range,
            };
            return Err(
                LoweringError::UnsupportedExpr {
                    kind: join3(
                        "AnonDictReturn(field `",
                        named_key(key).as_str(),
                        "`: forward reference into a reference-bearing field whose component reads a `#main` parameter — the tree-walk oracle cannot resolve this shape consistently)",
                    ),
                    range: at,
                },
            );
        },
        None => {},
    }
    Ok(drained.order)
}

} // verus!
