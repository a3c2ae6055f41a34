use vstd::prelude::*;

verus! {

/// Whether a sequence of ids is strictly increasing, hence duplicate-free.
pub open spec fn ordenado_estrito(s: Seq<u32>) -> bool {
    forall|i: int, j: int| 0 <= i < j < s.len() ==> s[i] < s[j]
}

/// The set of ids a sequence holds.
pub open spec fn conjunto(s: Seq<u32>) -> Set<u32> {
    s.to_set()
}

/// Whether `id` occurs in `v`.
pub fn contem(v: &Vec<u32>, id: u32) -> (r: bool)
    ensures
        r == conjunto(v@).contains(id),
{
    let mut i: usize = 0;
    while i < v.len()
        invariant
            i <= v.len(),
            forall|k: int| 0 <= k < i ==> v@[k] != id,
        decreases v.len() - i,
    {
        if v[i] == id {
            assert(v@.contains(id));
            return true;
        }
        i += 1;
    }
    assert(!v@.contains(id));
    false
}

/// Copies an id vector element by element.
pub fn copiar_ids(v: &Vec<u32>) -> (r: Vec<u32>)
    ensures
        r@ == v@,
{
    let mut r: Vec<u32> = Vec::new();
    let mut i: usize = 0;
    while i < v.len()
        invariant
            i <= v.len(),
            r@ == v@.take(i as int),
        decreases v.len() - i,
    {
        proof {
            assert(v@.take(i as int).push(v@[i as int]) =~= v@.take(i + 1));
        }
        r.push(v[i]);
        i += 1;
    }
    proof {
        assert(r@ =~= v@);
    }
    r
}

/// Taking one element more extends the taken prefix's set by that element.
pub proof fn lema_conjunto_take_mais(s: Seq<u32>, j: int)
    requires
        0 <= j < s.len(),
    ensures
        conjunto(s.take(j + 1)) == conjunto(s.take(j)).insert(s[j]),
{
    s.take(j).lemma_push_to_set_commute(s[j]);
    assert(s.take(j + 1) =~= s.take(j).push(s[j]));
}

/// Inserts `id` into the strictly increasing sequence `v`, keeping it
/// strictly increasing; a duplicate changes nothing (set semantics).
pub fn inserir_ordenado(v: &mut Vec<u32>, id: u32)
    requires
        ordenado_estrito(old(v)@),
    ensures
        ordenado_estrito(final(v)@),
        conjunto(final(v)@) == conjunto(old(v)@).insert(id),
        final(v)@.len() <= old(v)@.len() + 1,
{
    let mut pos: usize = 0;
    while pos < v.len() && v[pos] < id
        invariant
            pos <= v.len(),
            forall|k: int| 0 <= k < pos ==> v@[k] < id,
        decreases v.len() - pos,
    {
        pos += 1;
    }
    if pos < v.len() && v[pos] == id {
        proof {
            assert(v@.contains(id));
            assert(conjunto(v@) =~= conjunto(v@).insert(id));
        }
        return;
    }
    let ghost antes = v@;
    v.insert(pos, id);
    proof {
        let depois = antes.insert(pos as int, id);
        assert(v@ == depois);
        assert forall|i: int, j: int| 0 <= i < j < depois.len() implies depois[i] < depois[j] by {
            if i < pos && j > pos {
                assert(depois[i] == antes[i]);
                assert(depois[j] == antes[j - 1]);
            }
        }
        assert forall|x: u32| conjunto(depois).contains(x) <==> conjunto(antes).insert(
            id,
        ).contains(x) by {
            if conjunto(depois).contains(x) {
                let i = choose|i: int| 0 <= i < depois.len() && depois[i] == x;
                if i < pos {
                    assert(antes[i] == x);
                    assert(antes.contains(x));
                } else if i > pos {
                    assert(antes[i - 1] == x);
                    assert(antes.contains(x));
                }
            }
            if x == id {
                assert(depois[pos as int] == id);
                assert(depois.contains(x));
            } else if conjunto(antes).contains(x) {
                let i = choose|i: int| 0 <= i < antes.len() && antes[i] == x;
                if i < pos {
                    assert(depois[i] == x);
                } else {
                    assert(depois[i + 1] == x);
                }
                assert(depois.contains(x));
            }
        }
        assert(conjunto(depois) =~= conjunto(antes).insert(id));
    }
}

} // verus!
