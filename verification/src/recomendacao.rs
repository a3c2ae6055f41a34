use vstd::prelude::*;

use crate::ids::{
    conjunto, contem, copiar_ids, inserir_ordenado, lema_conjunto_take_mais, ordenado_estrito,
};
use vstd::pervasive::VecAdditionalExecFns;

verus! {

/// The position of the relation entry for `id`, or -1 when absent.
pub open spec fn pos_relacao(g: Seq<(u32, Vec<u32>)>, id: u32) -> int
    decreases g.len(),
{
    if g.len() == 0 {
        -1
    } else if g[0].0 == id {
        0
    } else {
        let r = pos_relacao(g.drop_first(), id);
        if r < 0 {
            -1
        } else {
            r + 1
        }
    }
}

/// The ids related to `id`, in ascending order; none when `id` has no entry.
pub open spec fn relacionados_de(g: Seq<(u32, Vec<u32>)>, id: u32) -> Seq<u32>
    decreases g.len(),
{
    if g.len() == 0 {
        Seq::empty()
    } else if g[0].0 == id {
        g[0].1@
    } else {
        relacionados_de(g.drop_first(), id)
    }
}

pub open spec fn grafo_bem_formado(g: Seq<(u32, Vec<u32>)>) -> bool {
    &&& forall|i: int, j: int| 0 <= i < j < g.len() ==> g[i].0 != g[j].0
    &&& forall|i: int| 0 <= i < g.len() ==> ordenado_estrito(#[trigger] g[i].1@)
}

/// The union of the related-id sets over a cart of product ids.
pub open spec fn uniao_carrinho(g: Seq<(u32, Vec<u32>)>, carrinho: Seq<u32>) -> Set<u32>
    decreases carrinho.len(),
{
    if carrinho.len() == 0 {
        Set::empty()
    } else {
        uniao_carrinho(g, carrinho.drop_last()).union(
            conjunto(relacionados_de(g, carrinho.last())),
        )
    }
}

proof fn lema_relacao_ausente(g: Seq<(u32, Vec<u32>)>, id: u32)
    requires
        forall|i: int| 0 <= i < g.len() ==> g[i].0 != id,
    ensures
        relacionados_de(g, id) == Seq::<u32>::empty(),
        pos_relacao(g, id) == -1,
    decreases g.len(),
{
    if g.len() > 0 {
        lema_relacao_ausente(g.drop_first(), id);
    }
}

proof fn lema_relacao_em(g: Seq<(u32, Vec<u32>)>, id: u32, i: int)
    requires
        0 <= i < g.len(),
        g[i].0 == id,
        forall|j: int| 0 <= j < i ==> g[j].0 != id,
    ensures
        relacionados_de(g, id) == g[i].1@,
    decreases g.len(),
{
    if i > 0 {
        lema_relacao_em(g.drop_first(), id, i - 1);
    }
}

proof fn lema_relacao_update(g: Seq<(u32, Vec<u32>)>, pos: int, e: (u32, Vec<u32>), id: u32)
    requires
        0 <= pos < g.len(),
        e.0 == g[pos].0,
        forall|i: int, j: int| 0 <= i < j < g.len() ==> g[i].0 != g[j].0,
    ensures
        relacionados_de(g.update(pos, e), id) == (if id == e.0 {
            e.1@
        } else {
            relacionados_de(g, id)
        }),
    decreases g.len(),
{
    let d = g.update(pos, e);
    if pos == 0 {
        assert(d.drop_first() =~= g.drop_first());
    } else {
        assert(d[0] == g[0]);
        assert(d.drop_first() =~= g.drop_first().update(pos - 1, e));
        lema_relacao_update(g.drop_first(), pos - 1, e, id);
    }
}

proof fn lema_relacao_push(g: Seq<(u32, Vec<u32>)>, e: (u32, Vec<u32>), id: u32)
    requires
        forall|i: int| 0 <= i < g.len() ==> g[i].0 != e.0,
    ensures
        relacionados_de(g.push(e), id) == (if id == e.0 {
            e.1@
        } else {
            relacionados_de(g, id)
        }),
    decreases g.len(),
{
    reveal_with_fuel(relacionados_de, 3);
    if g.len() == 0 {
        assert(g.push(e)[0] == e);
        assert(g.push(e).drop_first() =~= Seq::<(u32, Vec<u32>)>::empty());
    } else {
        assert(g.push(e)[0] == g[0]);
        assert(g.push(e).drop_first() =~= g.drop_first().push(e));
        lema_relacao_push(g.drop_first(), e, id);
    }
}

/// Similarity relations between records: product id to the set of ids
/// considered related, consumed by cart-based recommendation.
pub struct GrafoRecomendacao {
    relacoes: Vec<(u32, Vec<u32>)>,
}

impl GrafoRecomendacao {
    pub closed spec fn vista(&self) -> Seq<(u32, Vec<u32>)> {
        self.relacoes@
    }

    pub open spec fn bem_formado(&self) -> bool {
        grafo_bem_formado(self.vista())
    }

    /// The related ids of `id`, ascending.
    pub open spec fn relacionados(&self, id: u32) -> Seq<u32> {
        relacionados_de(self.vista(), id)
    }

    pub fn new() -> (r: Self)
        ensures
            r.bem_formado(),
            forall|id: u32| #[trigger] r.relacionados(id) == Seq::<u32>::empty(),
    {
        GrafoRecomendacao { relacoes: Vec::new() }
    }

    /// Extends the relation set of `produto_id` with `relacionados` (set
    /// semantics, never removing anything already related).
    pub fn adicionar_relacao(&mut self, produto_id: u32, relacionados: Vec<u32>)
        requires
            old(self).bem_formado(),
        ensures
            final(self).bem_formado(),
            forall|x: u32| #[trigger] conjunto(final(self).relacionados(x)) == (if x == produto_id {
                conjunto(old(self).relacionados(x)).union(conjunto(relacionados@))
            } else {
                conjunto(old(self).relacionados(x))
            }),
            forall|x: u32| #[trigger] ordenado_estrito(final(self).relacionados(x)),
    {
        let ghost antes = self.relacoes@;
        let mut pos: usize = 0;
        let mut achado: bool = false;
        let mut i: usize = 0;
        while i < self.relacoes.len()
            invariant
                i <= self.relacoes@.len(),
                self.relacoes@ == antes,
                !achado ==> forall|j: int| 0 <= j < i ==> antes[j].0 != produto_id,
                achado ==> pos < i && antes[pos as int].0 == produto_id && (forall|j: int|
                    0 <= j < pos ==> antes[j].0 != produto_id),
            decreases self.relacoes.len() - i,
        {
            if !achado && self.relacoes[i].0 == produto_id {
                achado = true;
                pos = i;
            }
            i += 1;
        }
        let mut lista: Vec<u32>;
        if achado {
            lista = copiar_ids(&self.relacoes[pos].1);
            proof {
                assert(ordenado_estrito(antes[pos as int].1@));
                lema_relacao_em(antes, produto_id, pos as int);
            }
        } else {
            lista = Vec::new();
            proof {
                lema_relacao_ausente(antes, produto_id);
            }
        }
        let ghost base = lista@;
        let mut j: usize = 0;
        proof {
            assert(conjunto(relacionados@.take(0)) =~= Set::<u32>::empty());
            assert(conjunto(base) =~= conjunto(base).union(conjunto(relacionados@.take(0))));
        }
        while j < relacionados.len()
            invariant
                j <= relacionados@.len(),
                ordenado_estrito(lista@),
                conjunto(lista@) == conjunto(base).union(conjunto(relacionados@.take(j as int))),
            decreases relacionados.len() - j,
        {
            inserir_ordenado(&mut lista, relacionados[j]);
            proof {
                lema_conjunto_take_mais(relacionados@, j as int);
                assert(conjunto(lista@) =~= conjunto(base).union(
                    conjunto(relacionados@.take(j + 1)),
                ));
            }
            j += 1;
        }
        proof {
            assert(relacionados@.take(relacionados@.len() as int) =~= relacionados@);
        }
        let ghost e = (produto_id, lista);
        if achado {
            self.relacoes.set(pos, (produto_id, lista));
            proof {
                assert(self.relacoes@ == antes.update(pos as int, e));
                assert forall|x: u32| #[trigger] conjunto(relacionados_de(self.relacoes@, x))
                    == (if x == produto_id {
                    conjunto(relacionados_de(antes, x)).union(conjunto(relacionados@))
                } else {
                    conjunto(relacionados_de(antes, x))
                }) by {
                    lema_relacao_update(antes, pos as int, e, x);
                }
                assert forall|a: int, b: int| 0 <= a < b < self.relacoes@.len() implies self
                    .relacoes@[a].0 != self.relacoes@[b].0 by {
                    assert(self.relacoes@[a].0 == antes[a].0);
                    assert(self.relacoes@[b].0 == antes[b].0);
                }
                assert forall|a: int|
                    0 <= a < self.relacoes@.len() implies ordenado_estrito(
                    #[trigger] self.relacoes@[a].1@,
                ) by {
                    if a != pos {
                        assert(self.relacoes@[a] == antes[a]);
                    }
                }
                assert forall|x: u32| #[trigger] ordenado_estrito(
                    relacionados_de(self.relacoes@, x),
                ) by {
                    lema_relacao_update(antes, pos as int, e, x);
                    if x != produto_id {
                        lema_ordem_relacao(antes, x);
                    }
                }
            }
        } else {
            self.relacoes.push((produto_id, lista));
            proof {
                assert(self.relacoes@ == antes.push(e));
                assert forall|x: u32| #[trigger] conjunto(relacionados_de(self.relacoes@, x))
                    == (if x == produto_id {
                    conjunto(relacionados_de(antes, x)).union(conjunto(relacionados@))
                } else {
                    conjunto(relacionados_de(antes, x))
                }) by {
                    lema_relacao_push(antes, e, x);
                    if x == produto_id {
                        assert(conjunto(relacionados_de(antes, x)) =~= Set::<u32>::empty());
                        assert(conjunto(e.1@) =~= conjunto(relacionados_de(antes, x)).union(
                            conjunto(relacionados@),
                        ));
                    }
                }
                assert forall|a: int, b: int| 0 <= a < b < self.relacoes@.len() implies self
                    .relacoes@[a].0 != self.relacoes@[b].0 by {
                    assert(self.relacoes@[a].0 == antes[a].0);
                    if b < antes.len() {
                        assert(self.relacoes@[b].0 == antes[b].0);
                    } else {
                        assert(self.relacoes@[b] == e);
                    }
                }
                assert forall|a: int|
                    0 <= a < self.relacoes@.len() implies ordenado_estrito(
                    #[trigger] self.relacoes@[a].1@,
                ) by {
                    if a < antes.len() {
                        assert(self.relacoes@[a] == antes[a]);
                    } else {
                        assert(self.relacoes@[a] == e);
                    }
                }
                assert forall|x: u32| #[trigger] ordenado_estrito(
                    relacionados_de(self.relacoes@, x),
                ) by {
                    lema_relacao_push(antes, e, x);
                    if x != produto_id {
                        lema_ordem_relacao(antes, x);
                    }
                }
            }
        }
    }

    /// Up to `limite` related ids of `produto_id`: the smallest ones, in
    /// ascending order.
    pub fn recomendar(&self, produto_id: u32, limite: usize) -> (r: Vec<u32>)
        requires
            self.bem_formado(),
        ensures
            r@ == self.relacionados(produto_id).take(
                if limite < self.relacionados(produto_id).len() {
                    limite as int
                } else {
                    self.relacionados(produto_id).len() as int
                },
            ),
    {
        let mut r = self.relacionados_copiados(produto_id);
        r.truncate(limite);
        r
    }

    /// A copy of the related-id list of `id`.
    fn relacionados_copiados(&self, id: u32) -> (r: Vec<u32>)
        requires
            self.bem_formado(),
        ensures
            r@ == self.relacionados(id),
            ordenado_estrito(r@),
    {
        let ghost g = self.relacoes@;
        let mut i: usize = 0;
        while i < self.relacoes.len()
            invariant
                i <= self.relacoes@.len(),
                self.relacoes@ == g,
                grafo_bem_formado(g),
                forall|j: int| 0 <= j < i ==> g[j].0 != id,
            decreases self.relacoes.len() - i,
        {
            if self.relacoes[i].0 == id {
                proof {
                    lema_relacao_em(g, id, i as int);
                    assert(ordenado_estrito(g[i as int].1@));
                }
                return copiar_ids(&self.relacoes[i].1);
            }
            i += 1;
        }
        proof {
            lema_relacao_ausente(g, id);
        }
        Vec::new()
    }

    /// The ids related to any cart item and not themselves in the cart, in
    /// ascending order, without a bound.
    pub fn recomendar_baseado_carrinho(&self, carrinho: Vec<u32>) -> (r: Vec<u32>)
        requires
            self.bem_formado(),
        ensures
            ordenado_estrito(r@),
            conjunto(r@) == uniao_carrinho(self.vista(), carrinho@).difference(conjunto(carrinho@)),
    {
        self.unir_carrinho(&carrinho)
    }

    /// As `recomendar_baseado_carrinho`, but keeping only the `limite`
    /// smallest of those ids.
    pub fn recomendar_para_carrinho(&self, produtos_ids: &Vec<u32>, limite: usize) -> (r: Vec<u32>)
        requires
            self.bem_formado(),
        ensures
            ordenado_estrito(r@),
            r@.len() <= limite,
            forall|j: int| 0 <= j < r@.len() ==> uniao_carrinho(self.vista(), produtos_ids@).difference(
                conjunto(produtos_ids@),
            ).contains(#[trigger] r@[j]),
            r@.len() == limite || conjunto(r@) == uniao_carrinho(
                self.vista(),
                produtos_ids@,
            ).difference(conjunto(produtos_ids@)),
            forall|x: u32|
                uniao_carrinho(self.vista(), produtos_ids@).difference(
                    conjunto(produtos_ids@),
                ).contains(x) && !conjunto(r@).contains(x) ==> r@.len() == limite && (r@.len() == 0
                    || r@.last() < x),
    {
        let cheio = self.unir_carrinho(produtos_ids);
        let ghost todos = cheio@;
        let ghost s = uniao_carrinho(self.vista(), produtos_ids@).difference(
            conjunto(produtos_ids@),
        );
        let mut r = cheio;
        r.truncate(limite);
        proof {
            if limite >= todos.len() {
                assert(r@ =~= todos);
            } else {
                assert(r@ == todos.take(limite as int));
                assert forall|j: int| 0 <= j < r@.len() implies s.contains(#[trigger] r@[j]) by {
                    assert(r@[j] == todos[j]);
                    assert(todos.contains(todos[j]));
                }
                assert forall|x: u32| s.contains(x) && !conjunto(r@).contains(x) implies r@.len()
                    == limite && (r@.len() == 0 || r@.last() < x) by {
                    assert(todos.contains(x));
                    let ix = choose|ix: int| 0 <= ix < todos.len() && todos[ix] == x;
                    if ix < limite {
                        assert(r@[ix] == x);
                        assert(r@.contains(x));
                    }
                    if limite > 0 {
                        assert(r@.last() == todos[limite - 1]);
                        assert(todos[limite - 1] < todos[ix]);
                    }
                }
            }
            assert forall|j: int| 0 <= j < r@.len() implies s.contains(#[trigger] r@[j]) by {
                assert(todos.contains(r@[j]));
            }
        }
        r
    }

    /// Builds the full recommendation list for a cart: the union of the
    /// related-id sets of its items, minus the items themselves, ascending.
    fn unir_carrinho(&self, carrinho: &Vec<u32>) -> (r: Vec<u32>)
        requires
            self.bem_formado(),
        ensures
            ordenado_estrito(r@),
            conjunto(r@) == uniao_carrinho(self.vista(), carrinho@).difference(conjunto(carrinho@)),
    {
        let ghost g = self.vista();
        let ghost fora = conjunto(carrinho@);
        let mut r: Vec<u32> = Vec::new();
        let mut i: usize = 0;
        proof {
            assert(conjunto(r@) =~= uniao_carrinho(g, carrinho@.take(0)).difference(fora));
        }
        while i < carrinho.len()
            invariant
                i <= carrinho@.len(),
                self.bem_formado(),
                g == self.vista(),
                fora == conjunto(carrinho@),
                ordenado_estrito(r@),
                conjunto(r@) == uniao_carrinho(g, carrinho@.take(i as int)).difference(fora),
            decreases carrinho.len() - i,
        {
            let ids = self.relacionados_copiados(carrinho[i]);
            let ghost base = conjunto(r@);
            let mut j: usize = 0;
            proof {
                assert(conjunto(ids@.take(0)) =~= Set::<u32>::empty());
                assert(conjunto(r@) =~= base.union(
                    conjunto(ids@.take(0)).difference(fora),
                ));
            }
            while j < ids.len()
                invariant
                    j <= ids@.len(),
                    fora == conjunto(carrinho@),
                    ordenado_estrito(r@),
                    conjunto(r@) == base.union(conjunto(ids@.take(j as int)).difference(fora)),
                decreases ids.len() - j,
            {
                let dentro = contem(carrinho, ids[j]);
                proof {
                    lema_conjunto_take_mais(ids@, j as int);
                }
                if !dentro {
                    inserir_ordenado(&mut r, ids[j]);
                    proof {
                        assert(conjunto(r@) =~= base.union(
                            conjunto(ids@.take(j + 1)).difference(fora),
                        ));
                    }
                } else {
                    proof {
                        assert(conjunto(r@) =~= base.union(
                            conjunto(ids@.take(j + 1)).difference(fora),
                        ));
                    }
                }
                j += 1;
            }
            proof {
                assert(ids@.take(ids@.len() as int) =~= ids@);
                assert(carrinho@.take(i + 1).drop_last() =~= carrinho@.take(i as int));
                assert(carrinho@.take(i + 1).last() == carrinho@[i as int]);
                assert(conjunto(r@) =~= uniao_carrinho(g, carrinho@.take(i + 1)).difference(fora));
            }
            i += 1;
        }
        proof {
            assert(carrinho@.take(carrinho@.len() as int) =~= carrinho@);
        }
        r
    }
}

proof fn lema_ordem_relacao(g: Seq<(u32, Vec<u32>)>, id: u32)
    requires
        grafo_bem_formado(g),
    ensures
        ordenado_estrito(relacionados_de(g, id)),
    decreases g.len(),
{
    if g.len() > 0 {
        if g[0].0 == id {
            assert(ordenado_estrito(g[0].1@));
        } else {
            assert forall|a: int, b: int|
                0 <= a < b < g.drop_first().len() implies g.drop_first()[a].0 != g.drop_first()[b].0
            by {
                assert(g.drop_first()[a] == g[a + 1]);
                assert(g.drop_first()[b] == g[b + 1]);
            }
            assert forall|a: int|
                0 <= a < g.drop_first().len() implies ordenado_estrito(
                #[trigger] g.drop_first()[a].1@,
            ) by {
                assert(g.drop_first()[a] == g[a + 1]);
            }
            lema_ordem_relacao(g.drop_first(), id);
        }
    }
}

} // verus!
