use vstd::prelude::*;

verus! {

/// The pairs of consecutive entries of a sequence: the edges of a polyline
/// through its points.
pub open spec fn adjacent_pairs_spec<S>(s: Seq<S>) -> Seq<(S, S)> {
    if s.len() < 2 {
        Seq::empty()
    } else {
        Seq::new((s.len() - 1) as nat, |k: int| (s[k], s[k + 1]))
    }
}

/// The isoline segments of a sampled lattice, one row of samples per fixed
/// value of the other parametric axis: consecutive samples of each row are
/// joined, rows contribute in order.
pub open spec fn iso_segments_spec<S>(rows: Seq<Seq<S>>) -> Seq<(S, S)>
    decreases rows.len(),
{
    if rows.len() == 0 {
        Seq::empty()
    } else {
        adjacent_pairs_spec(rows[0]) + iso_segments_spec(rows.drop_first())
    }
}

/// The view of a vector of sample rows as a sequence of sequences.
pub open spec fn rows_view<S>(rows: Seq<Vec<S>>) -> Seq<Seq<S>> {
    rows.map_values(|row: Vec<S>| row@)
}

/// Joins consecutive samples along one parametric axis into segments.
pub fn adjacent_pairs<S: Copy>(points: &Vec<S>) -> (r: Vec<(S, S)>)
    ensures
        r@ == adjacent_pairs_spec(points@),
{
    let mut r: Vec<(S, S)> = Vec::new();
    if points.len() >= 2 {
        let mut i: usize = 0;
        while i < points.len() - 1
            invariant
                points@.len() >= 2,
                i <= points@.len() - 1,
                r@.len() == i,
                forall|k: int| 0 <= k < i ==> r@[k] == (points@[k], points@[k + 1]),
            decreases points@.len() - 1 - i,
        {
            let pair = (points[i], points[i + 1]);
            r.push(pair);
            i = i + 1;
        }
    }
    proof {
        assert(r@ =~= adjacent_pairs_spec(points@));
    }
    r
}

proof fn lemma_iso_segments_push<S>(rows: Seq<Seq<S>>, row: Seq<S>)
    ensures
        iso_segments_spec(rows.push(row)) == iso_segments_spec(rows) + adjacent_pairs_spec(row),
    decreases rows.len(),
{
    if rows.len() == 0 {
        assert(rows.push(row)[0] =~= row);
        assert(rows.push(row).drop_first() =~= Seq::<Seq<S>>::empty());
        assert(iso_segments_spec(rows.push(row))
            == adjacent_pairs_spec(row) + iso_segments_spec(Seq::<Seq<S>>::empty()));
        assert(iso_segments_spec(Seq::<Seq<S>>::empty()) =~= Seq::<(S, S)>::empty());
        assert(iso_segments_spec(rows) =~= Seq::<(S, S)>::empty());
        assert(adjacent_pairs_spec(row) + Seq::<(S, S)>::empty() =~= adjacent_pairs_spec(row));
        assert(Seq::<(S, S)>::empty() + adjacent_pairs_spec(row) =~= adjacent_pairs_spec(row));
    } else {
        lemma_iso_segments_push(rows.drop_first(), row);
        assert(rows.push(row).drop_first() =~= rows.drop_first().push(row));
        assert(rows.push(row)[0] =~= rows[0]);
        assert(adjacent_pairs_spec(rows[0]) + (iso_segments_spec(rows.drop_first()) + adjacent_pairs_spec(row))
            =~= (adjacent_pairs_spec(rows[0]) + iso_segments_spec(rows.drop_first())) + adjacent_pairs_spec(row));
    }
}

/// The isoline segments along one parametric axis of a sampled lattice.
pub fn iso_segments<S: Copy>(rows: &Vec<Vec<S>>) -> (r: Vec<(S, S)>)
    ensures
        r@ == iso_segments_spec(rows_view(rows@)),
{
    let mut r: Vec<(S, S)> = Vec::new();
    let mut i: usize = 0;
    while i < rows.len()
        invariant
            i <= rows@.len(),
            r@ == iso_segments_spec(rows_view(rows@).take(i as int)),
        decreases rows@.len() - i,
    {
        let mut pairs = adjacent_pairs(&rows[i]);
        proof {
            lemma_iso_segments_push(rows_view(rows@).take(i as int), rows@[i as int]@);
            assert(rows_view(rows@).take(i as int).push(rows@[i as int]@)
                =~= rows_view(rows@).take(i + 1));
        }
        r.append(&mut pairs);
        i = i + 1;
    }
    proof {
        assert(rows_view(rows@).take(rows@.len() as int) =~= rows_view(rows@));
    }
    r
}

/// The full wireframe of a sampled surface patch: the union of its iso-u
/// segments (rows sampled along v for each fixed u) and its iso-v segments
/// (rows sampled along u for each fixed v), in that order.
pub fn wireframe_segments<S: Copy>(rows_u: &Vec<Vec<S>>, rows_v: &Vec<Vec<S>>) -> (r: Vec<(S, S)>)
    ensures
        r@ == iso_segments_spec(rows_view(rows_u@)) + iso_segments_spec(rows_view(rows_v@)),
{
    let mut r = iso_segments(rows_u);
    let mut second = iso_segments(rows_v);
    r.append(&mut second);
    r
}

} // verus!
