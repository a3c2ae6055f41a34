use vstd::prelude::*;

use crate::ids::{conjunto, ordenado_estrito};
use crate::indice::{indexado, texto_combinado, IndiceInverso};
use crate::produto::Produto;
use crate::texto::{minusculas_de, tokens_de};
use vstd::pervasive::VecAdditionalExecFns;

verus! {

/// The position of the record with identity `id`, or -1 when absent.
pub open spec fn pos_produto(s: Seq<Produto>, id: u32) -> int
    decreases s.len(),
{
    if s.len() == 0 {
        -1
    } else if s[0].id == id {
        0
    } else {
        let r = pos_produto(s.drop_first(), id);
        if r < 0 {
            -1
        } else {
            r + 1
        }
    }
}

/// The record stored under `id`, if any.
pub open spec fn busca_produto(s: Seq<Produto>, id: u32) -> Option<Produto> {
    if pos_produto(s, id) >= 0 {
        Some(s[pos_produto(s, id)])
    } else {
        None
    }
}

/// Identities are pairwise distinct.
pub open spec fn ids_unicos(s: Seq<Produto>) -> bool {
    forall|i: int, j: int| 0 <= i < j < s.len() ==> s[i].id != s[j].id
}

/// The identities of a record sequence, in order.
pub open spec fn ids_vista(s: Seq<Produto>) -> Seq<u32> {
    s.map_values(|p: Produto| p.id)
}

/// Every token of the record's combined text maps to the record's id in the
/// combined index map.
pub open spec fn produto_indexado(i: IndiceInverso, p: Produto) -> bool {
    forall|k: Seq<char>|
        #[trigger] tokens_de(minusculas_de(texto_combinado(p))).contains(k) ==> i.ids_texto(
            k,
        ).contains(p.id)
}

proof fn lema_pos(s: Seq<Produto>, id: u32)
    ensures
        pos_produto(s, id) >= 0 ==> 0 <= pos_produto(s, id) < s.len() && s[pos_produto(
            s,
            id,
        )].id == id && (forall|j: int| 0 <= j < pos_produto(s, id) ==> s[j].id != id),
        pos_produto(s, id) < 0 ==> (forall|j: int| 0 <= j < s.len() ==> s[j].id != id),
    decreases s.len(),
{
    if s.len() > 0 && s[0].id != id {
        let t = s.drop_first();
        lema_pos(t, id);
        let p = pos_produto(s, id);
        if p >= 0 {
            assert(pos_produto(t, id) == p - 1);
            assert(s[p] == t[p - 1]);
            assert forall|j: int| 0 <= j < p implies s[j].id != id by {
                if j > 0 {
                    assert(s[j] == t[j - 1]);
                }
            }
        } else {
            assert forall|j: int| 0 <= j < s.len() implies s[j].id != id by {
                if j > 0 {
                    assert(s[j] == t[j - 1]);
                }
            }
        }
    }
}

proof fn lema_pos_push(s: Seq<Produto>, p: Produto, id: u32)
    ensures
        pos_produto(s.push(p), id) == (if pos_produto(s, id) >= 0 {
            pos_produto(s, id)
        } else if p.id == id {
            s.len() as int
        } else {
            -1
        }),
    decreases s.len(),
{
    reveal_with_fuel(pos_produto, 3);
    if s.len() == 0 {
        assert(s.push(p)[0] == p);
        assert(s.push(p).drop_first() =~= Seq::<Produto>::empty());
    } else {
        assert(s.push(p)[0] == s[0]);
        assert(s.push(p).drop_first() =~= s.drop_first().push(p));
        lema_pos_push(s.drop_first(), p, id);
    }
}

proof fn lema_pos_update(s: Seq<Produto>, pos: int, p: Produto, id: u32)
    requires
        0 <= pos < s.len(),
        s[pos].id == p.id,
        ids_unicos(s),
    ensures
        pos_produto(s.update(pos, p), id) == (if p.id == id {
            pos
        } else {
            pos_produto(s, id)
        }),
    decreases s.len(),
{
    let d = s.update(pos, p);
    if pos == 0 {
        assert(d[0] == p);
        assert(d.drop_first() =~= s.drop_first());
        if p.id != id {
            assert(s[0].id == p.id);
        } else {
            lema_pos(s.drop_first(), id);
        }
    } else {
        assert(d[0] == s[0]);
        assert(d.drop_first() =~= s.drop_first().update(pos - 1, p));
        lema_pos_update(s.drop_first(), pos - 1, p, id);
        if s[0].id == id {
            assert(s[pos].id != id);
        }
    }
}

/// Owns the authoritative record store and the inverted index; rejects
/// ingestion beyond a fixed maximum record count.
pub struct MotorBusca {
    produtos: Vec<Produto>,
    indice: IndiceInverso,
    capacidade_maxima: usize,
}

impl MotorBusca {
    pub closed spec fn produtos_vista(&self) -> Seq<Produto> {
        self.produtos@
    }

    pub closed spec fn indice_vista(&self) -> IndiceInverso {
        self.indice
    }

    pub closed spec fn capacidade(&self) -> usize {
        self.capacidade_maxima
    }

    /// Well-formedness: unique identities, a well-formed index, and the
    /// store/index consistency both ways — every stored record is indexed
    /// under each of its combined-text tokens, and every id the combined map
    /// holds belongs to a stored record.
    pub open spec fn bem_formado(&self) -> bool {
        &&& ids_unicos(self.produtos_vista())
        &&& self.indice_vista().bem_formado()
        &&& forall|j: int|
            0 <= j < self.produtos_vista().len() ==> produto_indexado(
                self.indice_vista(),
                #[trigger] self.produtos_vista()[j],
            )
        &&& forall|k: Seq<char>, id: u32|
            #[trigger] self.indice_vista().ids_texto(k).contains(id) ==> busca_produto(
                self.produtos_vista(),
                id,
            ) is Some
    }

    pub fn new(capacidade_maxima: usize) -> (r: Self)
        ensures
            r.bem_formado(),
            r.produtos_vista() =~= Seq::<Produto>::empty(),
            r.capacidade() == capacidade_maxima,
    {
        MotorBusca { produtos: Vec::new(), indice: IndiceInverso::new(), capacidade_maxima }
    }

    /// Ingests a record. A full store rejects it with the capacity error and
    /// nothing changes; otherwise the record is indexed and stored — under a
    /// fresh id at the end of the store, under an already present id in that
    /// record's place.
    pub fn adicionar_produto(&mut self, produto: Produto) -> (r: Result<(), String>)
        requires
            old(self).bem_formado(),
        ensures
            final(self).bem_formado(),
            final(self).capacidade() == old(self).capacidade(),
            r is Err <==> old(self).produtos_vista().len() >= old(self).capacidade(),
            r is Err ==> *final(self) == *old(self) && r->Err_0@ == "Capacidade máxima atingida"@,
            r is Ok ==> indexado(old(self).indice_vista(), final(self).indice_vista(), produto)
                && final(self).produtos_vista() == (if pos_produto(
                old(self).produtos_vista(),
                produto.id,
            ) >= 0 {
                old(self).produtos_vista().update(
                    pos_produto(old(self).produtos_vista(), produto.id),
                    produto,
                )
            } else {
                old(self).produtos_vista().push(produto)
            }),
    {
        if self.produtos.len() >= self.capacidade_maxima {
            return Err(String::from_str("Capacidade máxima atingida"));
        }
        let ghost antes = self.produtos@;
        let ghost indice_antes = self.indice;
        self.indice.indexar_produto(&produto);
        let ghost indice_depois = self.indice;
        let ghost ts = tokens_de(minusculas_de(texto_combinado(produto)));
        let id = produto.id;
        let mut i: usize = 0;
        let mut achado: bool = false;
        let mut pos: usize = 0;
        while i < self.produtos.len()
            invariant
                i <= self.produtos@.len(),
                self.produtos@ == antes,
                !achado ==> forall|j: int| 0 <= j < i ==> antes[j].id != id,
                achado ==> pos < i && antes[pos as int].id == id && (forall|j: int|
                    0 <= j < pos ==> antes[j].id != id),
            decreases self.produtos.len() - i,
        {
            if !achado && self.produtos[i].id == id {
                achado = true;
                pos = i;
            }
            i += 1;
        }
        proof {
            lema_pos(antes, id);
            if achado {
                assert(pos_produto(antes, id) == pos as int);
            } else {
                assert(pos_produto(antes, id) < 0);
            }
        }
        if achado {
            self.produtos.set(pos, produto);
        } else {
            self.produtos.push(produto);
        }
        proof {
            let depois = self.produtos@;
            assert forall|a: int, b: int| 0 <= a < b < depois.len() implies depois[a].id
                != depois[b].id by {
                lema_pos(antes, id);
                if achado {
                    assert(depois =~= antes.update(pos as int, produto));
                } else {
                    assert(depois =~= antes.push(produto));
                }
            }
            assert forall|j: int|
                0 <= j < depois.len() implies produto_indexado(
                indice_depois,
                #[trigger] depois[j],
            ) by {
                assert forall|k: Seq<char>|
                    #[trigger] tokens_de(
                        minusculas_de(texto_combinado(depois[j])),
                    ).contains(k) implies indice_depois.ids_texto(k).contains(depois[j].id) by {
                    if (achado && j == pos as int) || (!achado && j == depois.len() - 1) {
                        assert(depois[j] == produto);
                        assert(crate::indice::aporte(ts, k, id).contains(id));
                    } else {
                        assert(depois[j] == antes[j]);
                        assert(produto_indexado(indice_antes, antes[j]));
                        assert(indice_antes.ids_texto(k).contains(antes[j].id));
                    }
                }
            }
            assert forall|k: Seq<char>, idx: u32|
                #[trigger] indice_depois.ids_texto(k).contains(idx) implies busca_produto(
                depois,
                idx,
            ) is Some by {
                lema_pos(antes, idx);
                if achado {
                    lema_pos_update(antes, pos as int, produto, idx);
                } else {
                    lema_pos_push(antes, produto, idx);
                }
                if indice_antes.ids_texto(k).contains(idx) {
                    assert(busca_produto(antes, idx) is Some);
                } else {
                    assert(crate::indice::aporte(ts, k, id).contains(idx));
                    assert(idx == id);
                }
            }
        }
        Ok(())
    }

    /// Answers a query: the stored records whose ids the index yields for it,
    /// in ascending id order.
    pub fn buscar(&self, query: &str) -> (r: Vec<Produto>)
        requires
            self.bem_formado(),
        ensures
            ordenado_estrito(ids_vista(r@)),
            conjunto(ids_vista(r@)) == self.indice_vista().resultado(query@),
            forall|j: int|
                0 <= j < r@.len() ==> busca_produto(self.produtos_vista(), #[trigger] r@[j].id)
                    == Some(r@[j]),
    {
        let ids = self.indice.buscar(query);
        let mut r: Vec<Produto> = Vec::new();
        let mut i: usize = 0;
        proof {
            assert(ids_vista(r@) =~= ids@.take(0));
        }
        while i < ids.len()
            invariant
                i <= ids@.len(),
                self.bem_formado(),
                conjunto(ids@) == self.indice_vista().resultado(query@),
                ids_vista(r@) =~= ids@.take(i as int),
                forall|j: int|
                    0 <= j < r@.len() ==> busca_produto(self.produtos_vista(), #[trigger] r@[j].id)
                        == Some(r@[j]),
            decreases ids.len() - i,
        {
            let ghost r_antes = r@;
            match self.obter_produto_por_id(ids[i]) {
                Some(p) => {
                    proof {
                        lema_pos(self.produtos_vista(), ids@[i as int]);
                        assert(p.id == ids@[i as int]);
                        assert(ids_vista(r_antes.push(p)) =~= ids_vista(r_antes).push(p.id));
                        assert(ids_vista(r_antes).push(p.id) =~= ids@.take(i + 1));
                    }
                    r.push(p);
                },
                None => {
                    proof {
                        assert(ids@.contains(ids@[i as int]));
                        assert(conjunto(ids@).contains(ids@[i as int]));
                        crate::indice::lema_ou_semantica(self.indice_vista(), query@, ids@[i as int]);
                        let jt = choose|jt: int|
                            0 <= jt < tokens_de(minusculas_de(query@)).len()
                                && self.indice_vista().ids_texto(
                                tokens_de(minusculas_de(query@))[jt],
                            ).contains(ids@[i as int]);
                        assert(busca_produto(self.produtos_vista(), ids@[i as int]) is Some);
                        assert(false);
                    }
                },
            }
            i += 1;
        }
        proof {
            assert(ids@.take(ids@.len() as int) =~= ids@);
            assert(ids_vista(r@) =~= ids@);
        }
        r
    }

    /// The record stored under `id`, as a copy, or nothing.
    pub fn obter_produto_por_id(&self, id: u32) -> (r: Option<Produto>)
        ensures
            r == busca_produto(self.produtos_vista(), id),
    {
        let mut i: usize = 0;
        while i < self.produtos.len()
            invariant
                i <= self.produtos@.len(),
                forall|j: int| 0 <= j < i ==> self.produtos@[j].id != id,
            decreases self.produtos.len() - i,
        {
            if self.produtos[i].id == id {
                proof {
                    lema_pos(self.produtos@, id);
                    assert(pos_produto(self.produtos@, id) == i as int);
                }
                return Some(self.produtos[i].clone());
            }
            i += 1;
        }
        proof {
            lema_pos(self.produtos@, id);
        }
        None
    }

    /// Copies of all stored records, in store order.
    pub fn obter_todos_produtos(&self) -> (r: Vec<Produto>)
        ensures
            r@ == self.produtos_vista(),
    {
        let mut r: Vec<Produto> = Vec::new();
        let mut i: usize = 0;
        while i < self.produtos.len()
            invariant
                i <= self.produtos@.len(),
                r@ == self.produtos@.take(i as int),
            decreases self.produtos.len() - i,
        {
            proof {
                assert(self.produtos@.take(i as int).push(self.produtos@[i as int])
                    =~= self.produtos@.take(i + 1));
            }
            r.push(self.produtos[i].clone());
            i += 1;
        }
        proof {
            assert(r@ =~= self.produtos@);
        }
        r
    }

    /// How many records the store holds.
    pub fn total_produtos(&self) -> (r: usize)
        ensures
            r == self.produtos_vista().len(),
    {
        self.produtos.len()
    }
}

} // verus!
