//! Cross-file compensation: a narrowing in one module may offset a widening
//! of the same field in a module it is directly connected to; a narrowing
//! or widening with more than one partner fails closed as ambiguous.
use vstd::prelude::*;

use super::types::{
    field_change_model, field_change_models, ChangeClassification, CompensationCandidate, CompensationResult, DependencyEdge, FieldChange,
    FieldChangeModel,
};
use crate::spec::types::SpecFile;
use crate::text::str_eq;

verus! {

pub open spec fn edge_model(e: DependencyEdge) -> (Seq<char>, Seq<char>) {
    (e.importer@, e.provider@)
}

pub open spec fn edge_models(es: Seq<DependencyEdge>) -> Seq<(Seq<char>, Seq<char>)> {
    es.map_values(|e: DependencyEdge| edge_model(e))
}

/// The (importer, provider) edges a spec declares through `allow_imports_from`.
pub open spec fn spec_edges(s: SpecFile) -> Seq<(Seq<char>, Seq<char>)> {
    match s.boundaries {
        Some(b) => match b.allow_imports_from {
            Some(list) => list@.map_values(|p: String| (s.module@, p@)),
            None => Seq::empty(),
        },
        None => Seq::empty(),
    }
}

/// The edges of all specs, in spec order.
pub open spec fn specs_edges(specs: Seq<SpecFile>) -> Seq<(Seq<char>, Seq<char>)>
    decreases specs.len(),
{
    if specs.len() == 0 {
        Seq::empty()
    } else {
        specs_edges(specs.drop_last()) + spec_edges(specs.last())
    }
}

/// The dependency edges the specs declare: each module to each module its
/// `allow_imports_from` lists.
pub fn dependency_edges_from_specs(specs: &[SpecFile]) -> (r: Vec<DependencyEdge>)
    ensures
        edge_models(r@) == specs_edges(specs@),
{
    let mut edges: Vec<DependencyEdge> = Vec::new();
    let mut i: usize = 0;
    while i < specs.len()
        invariant
            i <= specs@.len(),
            edge_models(edges@) == specs_edges(specs@.take(i as int)),
        decreases specs@.len() - i,
    {
        let spec = &specs[i];
        assert(specs@.take(i + 1).drop_last() =~= specs@.take(i as int));
        assert(specs@.take(i + 1).last() == *spec);
        let ghost before = edge_models(edges@);
        match &spec.boundaries {
            Some(b) => match &b.allow_imports_from {
                Some(list) => {
                    let mut j: usize = 0;
                    while j < list.len()
                        invariant
                            j <= list@.len(),
                            edge_models(edges@) == before + list@.take(j as int).map_values(
                                |p: String| (spec.module@, p@),
                            ),
                        decreases list@.len() - j,
                    {
                        let ghost prev = edge_models(edges@);
                        edges.push(DependencyEdge { importer: spec.module.clone(), provider: list[j].clone() });
                        assert(edge_models(edges@) =~= prev.push((spec.module@, list@[j as int]@)));
                        assert(list@.take(j + 1).map_values(|p: String| (spec.module@, p@)) =~= list@.take(
                            j as int,
                        ).map_values(|p: String| (spec.module@, p@)).push((spec.module@, list@[j as int]@)));
                        assert(edge_models(edges@) =~= before + list@.take(j + 1).map_values(
                            |p: String| (spec.module@, p@),
                        ));
                        j = j + 1;
                    }
                    assert(list@.take(j as int) =~= list@);
                },
                None => {
                    assert(edge_models(edges@) =~= before + Seq::<(Seq<char>, Seq<char>)>::empty());
                },
            },
            None => {
                assert(edge_models(edges@) =~= before + Seq::<(Seq<char>, Seq<char>)>::empty());
            },
        }
        i = i + 1;
    }
    assert(specs@.take(i as int) =~= specs@);
    edges
}

/// An edge joins `a` and `b`, in either direction.
pub open spec fn connects(e: (Seq<char>, Seq<char>), a: Seq<char>, b: Seq<char>) -> bool {
    (e.0 == a && e.1 == b) || (e.0 == b && e.1 == a)
}

/// The first edge joining `a` and `b`.
pub open spec fn first_edge(a: Seq<char>, b: Seq<char>, edges: Seq<(Seq<char>, Seq<char>)>) -> Option<
    (Seq<char>, Seq<char>),
>
    decreases edges.len(),
{
    if edges.len() == 0 {
        None
    } else if connects(edges[0], a, b) {
        Some(edges[0])
    } else {
        first_edge(a, b, edges.drop_first())
    }
}

/// Index of the first edge joining `a` and `b`.
fn find_edge(a: &str, b: &str, edges: &[DependencyEdge]) -> (r: Option<usize>)
    ensures
        match r {
            Some(k) => k < edges@.len() && first_edge(a@, b@, edge_models(edges@)) == Some(edge_model(edges@[k as int])),
            None => first_edge(a@, b@, edge_models(edges@)) is None,
        },
{
    let ghost es = edge_models(edges@);
    let mut i: usize = 0;
    assert(es.skip(0) =~= es);
    while i < edges.len()
        invariant
            es == edge_models(edges@),
            i <= edges@.len(),
            first_edge(a@, b@, es) == first_edge(a@, b@, es.skip(i as int)),
        decreases edges@.len() - i,
    {
        let e = &edges[i];
        let ghost rest = es.skip(i as int);
        assert(rest[0] == edge_model(*e));
        if (str_eq(e.importer.as_str(), a) && str_eq(e.provider.as_str(), b)) || (str_eq(e.importer.as_str(), b)
            && str_eq(e.provider.as_str(), a)) {
            return Some(i);
        }
        assert(rest.drop_first() =~= es.skip(i + 1));
        i = i + 1;
    }
    None
}

/// A field change with the same contents.
pub fn copy_field_change(c: &FieldChange) -> (r: FieldChange)
    ensures
        field_change_model(r) == field_change_model(*c),
{
    FieldChange {
        module: c.module.clone(),
        spec_path: c.spec_path.clone(),
        scope: c.scope,
        field: c.field.clone(),
        classification: c.classification,
        before: match &c.before {
            Some(v) => Some(v.copy()),
            None => None,
        },
        after: match &c.after {
            Some(v) => Some(v.copy()),
            None => None,
        },
        detail: c.detail.clone(),
    }
}

fn copy_edge(e: &DependencyEdge) -> (r: DependencyEdge)
    ensures
        edge_model(r) == edge_model(*e),
{
    DependencyEdge { importer: e.importer.clone(), provider: e.provider.clone() }
}

/// A candidate as plain values: widening, narrowing, edge, result.
pub type CandidateModel = (FieldChangeModel, FieldChangeModel, (Seq<char>, Seq<char>), CompensationResult);

pub open spec fn candidate_model(c: CompensationCandidate) -> CandidateModel {
    (field_change_model(c.widening), field_change_model(c.narrowing), edge_model(c.relationship), c.result)
}

pub open spec fn candidate_models(cs: Seq<CompensationCandidate>) -> Seq<CandidateModel> {
    cs.map_values(|c: CompensationCandidate| candidate_model(c))
}

/// A widening that `n` could offset: same field, another module, joined to
/// `n`'s module by an edge.
pub open spec fn compatible_with(w: FieldChangeModel, n: FieldChangeModel, edges: Seq<(Seq<char>, Seq<char>)>) -> bool {
    &&& w.1.0 == ChangeClassification::Widening
    &&& w.0.3 == n.0.3
    &&& w.0.0 != n.0.0
    &&& first_edge(w.0.0, n.0.0, edges) is Some
}

/// The widenings `n` could offset, each with the edge that joins them.
pub open spec fn compatible(ws: Seq<FieldChangeModel>, n: FieldChangeModel, edges: Seq<(Seq<char>, Seq<char>)>) -> Seq<
    (FieldChangeModel, (Seq<char>, Seq<char>)),
> {
    ws.filter(|w: FieldChangeModel| compatible_with(w, n, edges)).map_values(
        |w: FieldChangeModel| (w, first_edge(w.0.0, n.0.0, edges).unwrap()),
    )
}

/// The candidates of one narrowing: an offset with its single partner, or
/// every partner as ambiguous.
pub open spec fn candidates_for(ws: Seq<FieldChangeModel>, n: FieldChangeModel, edges: Seq<(Seq<char>, Seq<char>)>) -> Seq<
    CandidateModel,
> {
    let c = compatible(ws, n, edges);
    if c.len() == 1 {
        seq![(c[0].0, n, c[0].1, CompensationResult::Offset)]
    } else {
        c.map_values(|x: (FieldChangeModel, (Seq<char>, Seq<char>))| (x.0, n, x.1, CompensationResult::Ambiguous))
    }
}

/// The candidates of the narrowings, in order.
pub open spec fn raw_candidates(ws: Seq<FieldChangeModel>, ns: Seq<FieldChangeModel>, edges: Seq<(Seq<char>, Seq<char>)>) -> Seq<
    CandidateModel,
>
    decreases ns.len(),
{
    if ns.len() == 0 {
        Seq::empty()
    } else {
        raw_candidates(ws, ns.drop_last(), edges) + candidates_for(ws, ns.last(), edges)
    }
}

/// The widening a candidate pairs: its module and field.
pub open spec fn widening_key(c: CandidateModel) -> (Seq<char>, Seq<char>) {
    (c.0.0.0, c.0.0.3)
}

/// Candidates, of any result, pairing the widening `key`.
pub open spec fn partner_count(cs: Seq<CandidateModel>, key: (Seq<char>, Seq<char>)) -> nat {
    cs.filter(|c: CandidateModel| widening_key(c) == key).len()
}

/// Candidates whose widening more than one narrowing could offset become
/// ambiguous.
pub open spec fn settle(cs: Seq<CandidateModel>) -> Seq<CandidateModel> {
    cs.map_values(
        |c: CandidateModel|
            if partner_count(cs, widening_key(c)) > 1 {
                (c.0, c.1, c.2, CompensationResult::Ambiguous)
            } else {
                c
            },
    )
}

/// All compensation candidates.
pub open spec fn compensation_candidates(
    ws: Seq<FieldChangeModel>,
    ns: Seq<FieldChangeModel>,
    edges: Seq<(Seq<char>, Seq<char>)>,
) -> Seq<CandidateModel> {
    settle(raw_candidates(ws, ns, edges))
}

/// The widenings `n` could offset, as (widening index, edge index) pairs.
fn compatible_indices(ws: &[FieldChange], n: &FieldChange, edges: &[DependencyEdge]) -> (r: Vec<(usize, usize)>)
    ensures
        forall|k: int| 0 <= k < r@.len() ==> (#[trigger] r@[k]).0 < ws@.len() && r@[k].1 < edges@.len(),
        r@.map_values(|p: (usize, usize)| (field_change_model(ws@[p.0 as int]), edge_model(edges@[p.1 as int])))
            == compatible(field_change_models(ws@), field_change_model(*n), edge_models(edges@)),
{
    let ghost wm = field_change_models(ws@);
    let ghost nm = field_change_model(*n);
    let ghost es = edge_models(edges@);
    let mut out: Vec<(usize, usize)> = Vec::new();
    let mut i: usize = 0;
    while i < ws.len()
        invariant
            es == edge_models(edges@),
            wm == field_change_models(ws@),
            nm == field_change_model(*n),
            i <= ws@.len(),
            forall|k: int| 0 <= k < out@.len() ==> (#[trigger] out@[k]).0 < ws@.len() && out@[k].1 < edges@.len(),
            out@.map_values(|p: (usize, usize)| (field_change_model(ws@[p.0 as int]), edge_model(edges@[p.1 as int])))
                == wm.take(i as int).filter(|w: FieldChangeModel| compatible_with(w, nm, es)).map_values(
                |w: FieldChangeModel| (w, first_edge(w.0.0, nm.0.0, es).unwrap()),
            ),
        decreases ws@.len() - i,
    {
        let w = &ws[i];
        let ghost prev = out@.map_values(
            |p: (usize, usize)| (field_change_model(ws@[p.0 as int]), edge_model(edges@[p.1 as int])),
        );
        assert(wm.take(i + 1).drop_last() =~= wm.take(i as int));
        assert(wm.take(i + 1).last() == field_change_model(*w));
        reveal(Seq::filter);
        let mut found: Option<usize> = None;
        if w.classification == ChangeClassification::Widening && str_eq(w.field.as_str(), n.field.as_str()) && !str_eq(
            w.module.as_str(),
            n.module.as_str(),
        ) {
            found = find_edge(w.module.as_str(), n.module.as_str(), edges);
        }
        match found {
            Some(k) => {
                out.push((i, k));
                assert(out@.map_values(
                    |p: (usize, usize)| (field_change_model(ws@[p.0 as int]), edge_model(edges@[p.1 as int])),
                ) =~= prev.push((field_change_model(*w), edge_model(edges@[k as int]))));
            },
            None => {},
        }
        i = i + 1;
    }
    assert(wm.take(i as int) =~= wm);
    out
}

fn push_candidates_for(
    ws: &[FieldChange],
    n: &FieldChange,
    edges: &[DependencyEdge],
    out: &mut Vec<CompensationCandidate>,
)
    ensures
        candidate_models(final(out)@) == candidate_models(old(out)@) + candidates_for(
            field_change_models(ws@),
            field_change_model(*n),
            edge_models(edges@),
        ),
{
    let pairs = compatible_indices(ws, n, edges);
    let ghost c = compatible(field_change_models(ws@), field_change_model(*n), edge_models(edges@));
    let ghost start = candidate_models(out@);
    assert(pairs@.len() == c.len());
    if pairs.len() == 1 {
        let (wi, ei) = pairs[0];
        assert(c[0] == (field_change_model(ws@[wi as int]), edge_model(edges@[ei as int])));
        out.push(
            CompensationCandidate {
                widening: copy_field_change(&ws[wi]),
                narrowing: copy_field_change(n),
                relationship: copy_edge(&edges[ei]),
                result: CompensationResult::Offset,
            },
        );
        assert(candidate_models(out@) =~= start + candidates_for(
            field_change_models(ws@),
            field_change_model(*n),
            edge_models(edges@),
        ));
        return;
    }
    let ghost all = c.map_values(
        |x: (FieldChangeModel, (Seq<char>, Seq<char>))| (x.0, field_change_model(*n), x.1, CompensationResult::Ambiguous),
    );
    let mut k: usize = 0;
    while k < pairs.len()
        invariant
            pairs@.len() == c.len(),
            all == c.map_values(
                |x: (FieldChangeModel, (Seq<char>, Seq<char>))| (x.0, field_change_model(*n), x.1, CompensationResult::Ambiguous),
            ),
            c == pairs@.map_values(|p: (usize, usize)| (field_change_model(ws@[p.0 as int]), edge_model(edges@[p.1 as int]))),
            forall|q: int| 0 <= q < pairs@.len() ==> (#[trigger] pairs@[q]).0 < ws@.len() && pairs@[q].1 < edges@.len(),
            k <= pairs@.len(),
            candidate_models(out@) == start + all.take(k as int),
        decreases pairs@.len() - k,
    {
        let (wi, ei) = pairs[k];
        let ghost prev = candidate_models(out@);
        out.push(
            CompensationCandidate {
                widening: copy_field_change(&ws[wi]),
                narrowing: copy_field_change(n),
                relationship: copy_edge(&edges[ei]),
                result: CompensationResult::Ambiguous,
            },
        );
        assert(all[k as int] == (c[k as int].0, field_change_model(*n), c[k as int].1, CompensationResult::Ambiguous));
        assert(candidate_models(out@) =~= prev.push(all[k as int]));
        assert(all.take(k + 1) =~= all.take(k as int).push(all[k as int]));
        k = k + 1;
    }
    assert(all.take(k as int) =~= all);
}

fn same_widening(a: &CompensationCandidate, b: &CompensationCandidate) -> (r: bool)
    ensures
        r == (widening_key(candidate_model(*a)) == widening_key(candidate_model(*b))),
{
    str_eq(a.widening.module.as_str(), b.widening.module.as_str()) && str_eq(
        a.widening.field.as_str(),
        b.widening.field.as_str(),
    )
}

fn partner_count_exec(cs: &Vec<CompensationCandidate>, i: usize) -> (r: usize)
    requires
        i < cs@.len(),
    ensures
        r == partner_count(candidate_models(cs@), widening_key(candidate_model(cs@[i as int]))),
{
    let ghost ms = candidate_models(cs@);
    let ghost key = widening_key(candidate_model(cs@[i as int]));
    let mut count: usize = 0;
    let mut j: usize = 0;
    while j < cs.len()
        invariant
            ms == candidate_models(cs@),
            i < cs@.len(),
            key == widening_key(candidate_model(cs@[i as int])),
            j <= cs@.len(),
            count == ms.take(j as int).filter(|c: CandidateModel| widening_key(c) == key).len(),
            count <= j,
        decreases cs@.len() - j,
    {
        assert(ms.take(j + 1).drop_last() =~= ms.take(j as int));
        assert(ms.take(j + 1).last() == candidate_model(cs@[j as int]));
        reveal(Seq::filter);
        if same_widening(&cs[j], &cs[i]) {
            count = count + 1;
        }
        j = j + 1;
    }
    assert(ms.take(j as int) =~= ms);
    count
}

/// Pairs narrowings with the widenings they could offset (see
/// `compensation_candidates`): same field, different modules joined by a
/// dependency edge; a narrowing with one partner offsets it, one with
/// several is ambiguous with each, and a widening that more than one
/// narrowing could offset makes all its candidates ambiguous.
pub fn find_compensation_candidates(
    widenings: &[FieldChange],
    narrowings: &[FieldChange],
    edges: &[DependencyEdge],
) -> (r: Vec<CompensationCandidate>)
    ensures
        candidate_models(r@) == compensation_candidates(
            field_change_models(widenings@),
            field_change_models(narrowings@),
            edge_models(edges@),
        ),
{
    let ghost es = edge_models(edges@);
    let ghost wm = field_change_models(widenings@);
    let ghost nm = field_change_models(narrowings@);
    let mut raw: Vec<CompensationCandidate> = Vec::new();
    let mut j: usize = 0;
    assert(candidate_models(raw@) =~= raw_candidates(wm, nm.take(0), es));
    while j < narrowings.len()
        invariant
            es == edge_models(edges@),
            wm == field_change_models(widenings@),
            nm == field_change_models(narrowings@),
            j <= narrowings@.len(),
            candidate_models(raw@) == raw_candidates(wm, nm.take(j as int), es),
        decreases narrowings@.len() - j,
    {
        assert(nm.take(j + 1).drop_last() =~= nm.take(j as int));
        assert(nm.take(j + 1).last() == field_change_model(narrowings@[j as int]));
        push_candidates_for(widenings, &narrowings[j], edges, &mut raw);
        j = j + 1;
    }
    assert(nm.take(j as int) =~= nm);
    let ghost ms = candidate_models(raw@);
    let mut ambiguous: Vec<bool> = Vec::new();
    let mut i: usize = 0;
    while i < raw.len()
        invariant
            ms == candidate_models(raw@),
            i <= raw@.len(),
            ambiguous@.len() == i,
            forall|k: int| 0 <= k < i ==> #[trigger] ambiguous@[k] == (partner_count(ms, widening_key(ms[k])) > 1),
        decreases raw@.len() - i,
    {
        let count = partner_count_exec(&raw, i);
        ambiguous.push(count > 1);
        i = i + 1;
    }
    let ghost settled = settle(ms);
    let n = raw.len();
    let mut rest = raw;
    let mut out: Vec<CompensationCandidate> = Vec::new();
    let mut k: usize = 0;
    while rest.len() > 0
        invariant
            ms.len() == n,
            ambiguous@.len() == n,
            settled == settle(ms),
            forall|q: int| 0 <= q < n ==> #[trigger] ambiguous@[q] == (partner_count(ms, widening_key(ms[q])) > 1),
            k + rest@.len() == n,
            candidate_models(rest@) == ms.skip(k as int),
            candidate_models(out@) == settled.take(k as int),
        decreases rest@.len(),
    {
        let ghost before = candidate_models(rest@);
        let mut c = rest.remove(0);
        assert(before[0] == candidate_model(c));
        assert(candidate_models(rest@) =~= before.drop_first());
        assert(ms.skip(k + 1) =~= ms.skip(k as int).drop_first());
        assert(ms[k as int] == candidate_model(c));
        if ambiguous[k] {
            c.result = CompensationResult::Ambiguous;
        }
        let ghost prev = candidate_models(out@);
        out.push(c);
        assert(candidate_models(out@) =~= prev.push(settled[k as int]));
        assert(settled.take(k + 1) =~= settled.take(k as int).push(settled[k as int]));
        k = k + 1;
    }
    assert(settled.take(k as int) =~= settled);
    out
}

} // verus!
