use vstd::prelude::*;

use crate::ids::{
    conjunto, copiar_ids, inserir_ordenado, lema_conjunto_take_mais, ordenado_estrito,
};
use vstd::pervasive::VecAdditionalExecFns;
use crate::produto::Produto;
use crate::texto::{minusculas_de, termo_normalizado, tokens_de, vistas, ProcessadorTexto};

verus! {

/// One token map: a list of (token, ids) entries with pairwise distinct
/// tokens, each id list strictly increasing.
pub open spec fn chaves_unicas(m: Seq<(String, Vec<u32>)>) -> bool {
    forall|i: int, j: int| 0 <= i < j < m.len() ==> m[i].0@ != m[j].0@
}

pub open spec fn listas_ordenadas(m: Seq<(String, Vec<u32>)>) -> bool {
    forall|i: int| 0 <= i < m.len() ==> ordenado_estrito(#[trigger] m[i].1@)
}

pub open spec fn mapa_bem_formado(m: Seq<(String, Vec<u32>)>) -> bool {
    chaves_unicas(m) && listas_ordenadas(m)
}

/// The set of ids a token map associates with token `k`; absent tokens
/// resolve to the empty set.
pub open spec fn ids_de(m: Seq<(String, Vec<u32>)>, k: Seq<char>) -> Set<u32>
    decreases m.len(),
{
    if m.len() == 0 {
        Set::empty()
    } else if m[0].0@ == k {
        conjunto(m[0].1@)
    } else {
        ids_de(m.drop_first(), k)
    }
}

/// What one record contributes under token `k`: its id if `k` is among the
/// tokens `ts`, nothing otherwise.
pub open spec fn aporte(ts: Seq<Seq<char>>, k: Seq<char>, id: u32) -> Set<u32> {
    if ts.contains(k) {
        Set::empty().insert(id)
    } else {
        Set::empty()
    }
}

proof fn lema_ids_ausente(m: Seq<(String, Vec<u32>)>, k: Seq<char>)
    requires
        forall|i: int| 0 <= i < m.len() ==> m[i].0@ != k,
    ensures
        ids_de(m, k) == Set::<u32>::empty(),
    decreases m.len(),
{
    if m.len() > 0 {
        lema_ids_ausente(m.drop_first(), k);
    }
}

proof fn lema_ids_em(m: Seq<(String, Vec<u32>)>, k: Seq<char>, i: int)
    requires
        0 <= i < m.len(),
        m[i].0@ == k,
        forall|j: int| 0 <= j < i ==> m[j].0@ != k,
    ensures
        ids_de(m, k) == conjunto(m[i].1@),
    decreases m.len(),
{
    if i > 0 {
        lema_ids_em(m.drop_first(), k, i - 1);
    }
}

proof fn lema_ids_update(m: Seq<(String, Vec<u32>)>, pos: int, e: (String, Vec<u32>), k: Seq<char>)
    requires
        0 <= pos < m.len(),
        e.0@ == m[pos].0@,
        chaves_unicas(m),
    ensures
        ids_de(m.update(pos, e), k) == (if k == e.0@ {
            conjunto(e.1@)
        } else {
            ids_de(m, k)
        }),
    decreases m.len(),
{
    let d = m.update(pos, e);
    if pos == 0 {
        assert(d.drop_first() =~= m.drop_first());
    } else {
        assert(d[0] == m[0]);
        assert(d.drop_first() =~= m.drop_first().update(pos - 1, e));
        lema_ids_update(m.drop_first(), pos - 1, e, k);
    }
}

proof fn lema_ids_push(m: Seq<(String, Vec<u32>)>, e: (String, Vec<u32>), k: Seq<char>)
    requires
        forall|i: int| 0 <= i < m.len() ==> m[i].0@ != e.0@,
    ensures
        ids_de(m.push(e), k) == (if k == e.0@ {
            conjunto(e.1@)
        } else {
            ids_de(m, k)
        }),
    decreases m.len(),
{
    reveal_with_fuel(ids_de, 3);
    if m.len() == 0 {
        assert(m.push(e)[0] == e);
        assert(m.push(e).drop_first() =~= Seq::<(String, Vec<u32>)>::empty());
    } else {
        assert(m.push(e)[0] == m[0]);
        assert(m.push(e).drop_first() =~= m.drop_first().push(e));
        lema_ids_push(m.drop_first(), e, k);
    }
}

/// Inserts `id` under `token`, creating the entry when absent.
fn inserir_no_mapa(m: &mut Vec<(String, Vec<u32>)>, token: String, id: u32)
    requires
        mapa_bem_formado(old(m)@),
    ensures
        mapa_bem_formado(final(m)@),
        forall|k: Seq<char>| #[trigger] ids_de(final(m)@, k) == (if k == token@ {
            ids_de(old(m)@, k).insert(id)
        } else {
            ids_de(old(m)@, k)
        }),
{
    let ghost antes = m@;
    let mut i: usize = 0;
    while i < m.len()
        invariant
            i <= m.len(),
            m@ == antes,
            antes == old(m)@,
            mapa_bem_formado(antes),
            forall|j: int| 0 <= j < i ==> antes[j].0@ != token@,
        decreases m.len() - i,
    {
        if m[i].0 == token {
            let chave = m[i].0.clone();
            let mut lista = copiar_ids(&m[i].1);
            proof {
                assert(chaves_unicas(antes) && listas_ordenadas(antes));
                assert(ordenado_estrito(antes[i as int].1@));
            }
            inserir_ordenado(&mut lista, id);
            let ghost nova = (chave, lista);
            m.set(i, (chave, lista));
            proof {
                assert(m@ == antes.update(i as int, nova));
                assert forall|k: Seq<char>| #[trigger] ids_de(m@, k) == (if k == token@ {
                    ids_de(antes, k).insert(id)
                } else {
                    ids_de(antes, k)
                }) by {
                    lema_ids_update(antes, i as int, nova, k);
                    if k == token@ {
                        lema_ids_em(antes, k, i as int);
                    }
                }
                assert forall|a: int, b: int| 0 <= a < b < m@.len() implies m@[a].0@
                    != m@[b].0@ by {
                    assert(m@[a].0@ == antes[a].0@);
                    assert(m@[b].0@ == antes[b].0@);
                }
                assert forall|a: int| 0 <= a < m@.len() implies ordenado_estrito(
                    #[trigger] m@[a].1@,
                ) by {
                    if a != i {
                        assert(m@[a] == antes[a]);
                    }
                }
            }
            return;
        }
        i += 1;
    }
    let mut lista: Vec<u32> = Vec::new();
    lista.push(id);
    let ghost entrada = (token, lista);
    m.push((token, lista));
    proof {
        assert(m@ == antes.push(entrada));
        assert forall|k: Seq<char>| #[trigger] ids_de(m@, k) == (if k == token@ {
            ids_de(antes, k).insert(id)
        } else {
            ids_de(antes, k)
        }) by {
            lema_ids_push(antes, entrada, k);
            if k == token@ {
                lema_ids_ausente(antes, k);
                assert(entrada.1@.len() == 1 && entrada.1@[0] == id);
                assert(conjunto(entrada.1@) =~= ids_de(antes, k).insert(id));
            }
        }
        assert forall|a: int, b: int| 0 <= a < b < m@.len() implies m@[a].0@ != m@[b].0@ by {
            if b < antes.len() {
                assert(m@[a].0 == antes[a].0);
                assert(m@[b].0 == antes[b].0);
            } else {
                assert(m@[a].0 == antes[a].0);
                assert(m@[b] == entrada);
            }
        }
        assert forall|a: int| 0 <= a < m@.len() implies ordenado_estrito(#[trigger] m@[a].1@) by {
            if a < antes.len() {
                assert(m@[a] == antes[a]);
            } else {
                assert(m@[a] == entrada);
            }
        }
    }
}

/// Reads the ids stored under `token`, as a fresh strictly increasing vector.
fn ids_no_mapa(m: &Vec<(String, Vec<u32>)>, token: &String) -> (r: Vec<u32>)
    requires
        mapa_bem_formado(m@),
    ensures
        ordenado_estrito(r@),
        conjunto(r@) == ids_de(m@, token@),
{
    let mut i: usize = 0;
    while i < m.len()
        invariant
            i <= m.len(),
            mapa_bem_formado(m@),
            forall|j: int| 0 <= j < i ==> m@[j].0@ != token@,
        decreases m.len() - i,
    {
        if m[i].0 == *token {
            let fonte = &m[i].1;
            let mut r: Vec<u32> = Vec::new();
            let mut j: usize = 0;
            while j < fonte.len()
                invariant
                    j <= fonte.len(),
                    r@ == fonte@.take(j as int),
                decreases fonte.len() - j,
            {
                proof {
                    assert(fonte@.take(j as int).push(fonte@[j as int]) =~= fonte@.take(j + 1));
                }
                r.push(fonte[j]);
                j += 1;
            }
            proof {
                assert(r@ =~= fonte@);
                lema_ids_em(m@, token@, i as int);
            }
            return r;
        }
        i += 1;
    }
    proof {
        lema_ids_ausente(m@, token@);
    }
    let r: Vec<u32> = Vec::new();
    proof {
        assert(conjunto(r@) =~= Set::<u32>::empty());
    }
    r
}

/// The per-field token maps plus the combined map that answers queries.
pub struct IndiceInverso {
    indice_nome: Vec<(String, Vec<u32>)>,
    indice_marca: Vec<(String, Vec<u32>)>,
    indice_categoria: Vec<(String, Vec<u32>)>,
    indice_texto: Vec<(String, Vec<u32>)>,
    processador: ProcessadorTexto,
}

/// Which per-field map a term lookup reads.
pub enum Campo {
    Nome,
    Marca,
    Categoria,
    Texto,
}

/// The id sets of the combined map of `depois` extend those of `antes` by
/// exactly the record `p`, and the per-field maps likewise, field by field.
pub open spec fn indexado(antes: IndiceInverso, depois: IndiceInverso, p: Produto) -> bool {
    &&& forall|k: Seq<char>| #[trigger] depois.ids_nome(k) == antes.ids_nome(k).union(
        aporte(tokens_de(minusculas_de(p.nome@)), k, p.id),
    )
    &&& forall|k: Seq<char>| #[trigger] depois.ids_marca(k) == antes.ids_marca(k).union(
        aporte(tokens_de(minusculas_de(p.marca@)), k, p.id),
    )
    &&& forall|k: Seq<char>| #[trigger] depois.ids_categoria(k) == antes.ids_categoria(k).union(
        aporte(tokens_de(minusculas_de(p.categoria@)), k, p.id),
    )
    &&& forall|k: Seq<char>| #[trigger] depois.ids_texto(k) == antes.ids_texto(k).union(
        aporte(tokens_de(minusculas_de(texto_combinado(p))), k, p.id),
    )
}

/// The space-joined concatenation of the three indexed fields.
pub open spec fn texto_combinado(p: Produto) -> Seq<char> {
    p.nome@ + " "@ + p.marca@ + " "@ + p.categoria@
}

/// The union of the combined map's id sets over a token sequence.
pub open spec fn uniao_tokens(i: IndiceInverso, ts: Seq<Seq<char>>) -> Set<u32>
    decreases ts.len(),
{
    if ts.len() == 0 {
        Set::empty()
    } else {
        uniao_tokens(i, ts.drop_last()).union(i.ids_texto(ts.last()))
    }
}

impl IndiceInverso {
    pub closed spec fn ids_nome(&self, k: Seq<char>) -> Set<u32> {
        ids_de(self.indice_nome@, k)
    }

    pub closed spec fn ids_marca(&self, k: Seq<char>) -> Set<u32> {
        ids_de(self.indice_marca@, k)
    }

    pub closed spec fn ids_categoria(&self, k: Seq<char>) -> Set<u32> {
        ids_de(self.indice_categoria@, k)
    }

    pub closed spec fn ids_texto(&self, k: Seq<char>) -> Set<u32> {
        ids_de(self.indice_texto@, k)
    }

    /// The id set a per-field lookup reads for an already normalized token.
    pub open spec fn ids_campo(&self, campo: Campo, k: Seq<char>) -> Set<u32> {
        match campo {
            Campo::Nome => self.ids_nome(k),
            Campo::Marca => self.ids_marca(k),
            Campo::Categoria => self.ids_categoria(k),
            Campo::Texto => self.ids_texto(k),
        }
    }

    pub closed spec fn bem_formado(&self) -> bool {
        mapa_bem_formado(self.indice_nome@) && mapa_bem_formado(self.indice_marca@)
            && mapa_bem_formado(self.indice_categoria@) && mapa_bem_formado(self.indice_texto@)
    }

    /// The id set a query yields: the union over its tokens of the combined
    /// map's sets. An empty query, or one whose tokens all miss, yields the
    /// empty set.
    pub open spec fn resultado(&self, q: Seq<char>) -> Set<u32> {
        uniao_tokens(*self, tokens_de(minusculas_de(q)))
    }

    pub fn new() -> (r: Self)
        ensures
            r.bem_formado(),
            forall|k: Seq<char>| #[trigger] r.ids_nome(k) == Set::<u32>::empty(),
            forall|k: Seq<char>| #[trigger] r.ids_marca(k) == Set::<u32>::empty(),
            forall|k: Seq<char>| #[trigger] r.ids_categoria(k) == Set::<u32>::empty(),
            forall|k: Seq<char>| #[trigger] r.ids_texto(k) == Set::<u32>::empty(),
    {
        IndiceInverso {
            indice_nome: Vec::new(),
            indice_marca: Vec::new(),
            indice_categoria: Vec::new(),
            indice_texto: Vec::new(),
            processador: ProcessadorTexto::new(),
        }
    }

    /// Tokenizes the three text fields separately into the per-field maps,
    /// and their space-joined concatenation into the combined map, adding the
    /// record's id under every token produced (set semantics).
    pub fn indexar_produto(&mut self, produto: &Produto)
        requires
            old(self).bem_formado(),
        ensures
            final(self).bem_formado(),
            indexado(*old(self), *final(self), *produto),
    {
        Self::indexar_texto(&mut self.indice_nome, &self.processador, &produto.nome, produto.id);
        Self::indexar_texto(&mut self.indice_marca, &self.processador, &produto.marca, produto.id);
        Self::indexar_texto(
            &mut self.indice_categoria,
            &self.processador,
            &produto.categoria,
            produto.id,
        );
        let mut completo = produto.nome.clone();
        completo.append(" ");
        completo.append(produto.marca.as_str());
        completo.append(" ");
        completo.append(produto.categoria.as_str());
        proof {
            assert(completo@ == texto_combinado(*produto));
        }
        Self::indexar_texto(&mut self.indice_texto, &self.processador, completo.as_str(), produto.id);
    }

    /// Adds `id` under every token of `texto` in the map `indice`.
    fn indexar_texto(
        indice: &mut Vec<(String, Vec<u32>)>,
        processador: &ProcessadorTexto,
        texto: &str,
        id: u32,
    )
        requires
            mapa_bem_formado(old(indice)@),
        ensures
            mapa_bem_formado(final(indice)@),
            forall|k: Seq<char>| #[trigger] ids_de(final(indice)@, k) == ids_de(
                old(indice)@,
                k,
            ).union(aporte(tokens_de(minusculas_de(texto@)), k, id)),
    {
        let tokens = processador.processar(texto);
        let ghost ts = tokens_de(minusculas_de(texto@));
        let ghost antes = indice@;
        let mut i: usize = 0;
        proof {
            assert(vistas(tokens@) == ts);
            assert(tokens@.len() == ts.len());
            assert forall|k: Seq<char>| #[trigger] ids_de(indice@, k) == ids_de(antes, k).union(
                aporte(ts.take(0), k, id),
            ) by {
                assert(!ts.take(0).contains(k));
                assert(ids_de(antes, k) =~= ids_de(antes, k).union(aporte(ts.take(0), k, id)));
            }
        }
        while i < tokens.len()
            invariant
                i <= tokens.len(),
                tokens@.len() == ts.len(),
                vistas(tokens@) == ts,
                mapa_bem_formado(indice@),
                forall|k: Seq<char>| #[trigger] ids_de(indice@, k) == ids_de(antes, k).union(
                    aporte(ts.take(i as int), k, id),
                ),
            decreases tokens.len() - i,
        {
            let ghost meio = indice@;
            let t = tokens[i].clone();
            proof {
                assert(t@ == vistas(tokens@)[i as int]);
                assert(t@ == ts[i as int]);
            }
            inserir_no_mapa(indice, t, id);
            proof {
                assert forall|k: Seq<char>| #[trigger] ids_de(indice@, k) == ids_de(antes, k).union(
                    aporte(ts.take(i + 1), k, id),
                ) by {
                    assert(ts.take(i + 1) =~= ts.take(i as int).push(ts[i as int]));
                    vstd::seq_lib::lemma_seq_contains_after_push(ts.take(i as int), ts[i as int], k);
                    if k == ts[i as int] {
                        assert(ids_de(indice@, k) =~= ids_de(antes, k).union(
                            aporte(ts.take(i + 1), k, id),
                        ));
                    } else {
                        assert(aporte(ts.take(i + 1), k, id) == aporte(ts.take(i as int), k, id));
                    }
                }
            }
            i += 1;
        }
        proof {
            assert(ts.take(ts.len() as int) =~= ts);
        }
    }

    /// Normalizes `termo` with the canonical rule and reads the chosen
    /// per-field map for that exact token.
    pub fn buscar_no_indice(&self, termo: &str, campo: Campo) -> (r: Vec<u32>)
        requires
            self.bem_formado(),
        ensures
            ordenado_estrito(r@),
            conjunto(r@) == self.ids_campo(campo, termo_normalizado(termo@)),
    {
        let token = self.processador.processar_termo(termo);
        match campo {
            Campo::Nome => ids_no_mapa(&self.indice_nome, &token),
            Campo::Marca => ids_no_mapa(&self.indice_marca, &token),
            Campo::Categoria => ids_no_mapa(&self.indice_categoria, &token),
            Campo::Texto => ids_no_mapa(&self.indice_texto, &token),
        }
    }

    /// Tokenizes the query with the indexing rule and returns the union of
    /// the combined map's id sets over the query's tokens, strictly
    /// increasing.
    pub fn buscar(&self, query: &str) -> (r: Vec<u32>)
        requires
            self.bem_formado(),
        ensures
            ordenado_estrito(r@),
            conjunto(r@) == self.resultado(query@),
    {
        let tokens = self.processador.processar(query);
        let ghost ts = tokens_de(minusculas_de(query@));
        let mut r: Vec<u32> = Vec::new();
        let mut i: usize = 0;
        proof {
            assert(tokens@.len() == ts.len());
            assert(ts.take(0) =~= Seq::<Seq<char>>::empty());
            assert(conjunto(r@) =~= uniao_tokens(*self, ts.take(0)));
        }
        while i < tokens.len()
            invariant
                i <= tokens.len(),
                tokens@.len() == ts.len(),
                vistas(tokens@) == ts,
                self.bem_formado(),
                ordenado_estrito(r@),
                conjunto(r@) == uniao_tokens(*self, ts.take(i as int)),
            decreases tokens.len() - i,
        {
            proof {
                assert(tokens@[i as int]@ == vistas(tokens@)[i as int]);
            }
            let ids = ids_no_mapa(&self.indice_texto, &tokens[i]);
            let mut j: usize = 0;
            let ghost base = conjunto(r@);
            proof {
                assert(conjunto(ids@.take(0)) =~= Set::<u32>::empty());
                assert(base =~= base.union(conjunto(ids@.take(0))));
            }
            while j < ids.len()
                invariant
                    j <= ids.len(),
                    ordenado_estrito(r@),
                    conjunto(r@) == base.union(conjunto(ids@.take(j as int))),
                decreases ids.len() - j,
            {
                inserir_ordenado(&mut r, ids[j]);
                proof {
                    lema_conjunto_take_mais(ids@, j as int);
                    assert(conjunto(r@) =~= base.union(conjunto(ids@.take(j + 1))));
                }
                j += 1;
            }
            proof {
                assert(ids@.take(ids@.len() as int) =~= ids@);
                assert(ts.take(i + 1).drop_last() =~= ts.take(i as int));
                assert(ts.take(i + 1).last() == ts[i as int]);
                assert(conjunto(r@) =~= uniao_tokens(*self, ts.take(i + 1)));
            }
            i += 1;
        }
        proof {
            assert(ts.take(ts.len() as int) =~= ts);
        }
        r
    }
}

/// Law: indexing the same record twice, id and fields unchanged, leaves every
/// token's id set — and hence every query's result — exactly as after
/// indexing it once.
pub proof fn lema_indexacao_idempotente(
    i0: IndiceInverso,
    i1: IndiceInverso,
    i2: IndiceInverso,
    p: Produto,
)
    requires
        indexado(i0, i1, p),
        indexado(i1, i2, p),
    ensures
        forall|k: Seq<char>| #[trigger] i2.ids_texto(k) == i1.ids_texto(k),
        forall|k: Seq<char>| #[trigger] i2.ids_nome(k) == i1.ids_nome(k),
        forall|k: Seq<char>| #[trigger] i2.ids_marca(k) == i1.ids_marca(k),
        forall|k: Seq<char>| #[trigger] i2.ids_categoria(k) == i1.ids_categoria(k),
        forall|q: Seq<char>| #[trigger] i2.resultado(q) == i1.resultado(q),
{
    assert forall|k: Seq<char>| #[trigger] i2.ids_texto(k) == i1.ids_texto(k) by {
        let a = aporte(tokens_de(minusculas_de(texto_combinado(p))), k, p.id);
        assert(i0.ids_texto(k).union(a).union(a) =~= i0.ids_texto(k).union(a));
    }
    assert forall|k: Seq<char>| #[trigger] i2.ids_nome(k) == i1.ids_nome(k) by {
        let a = aporte(tokens_de(minusculas_de(p.nome@)), k, p.id);
        assert(i0.ids_nome(k).union(a).union(a) =~= i0.ids_nome(k).union(a));
    }
    assert forall|k: Seq<char>| #[trigger] i2.ids_marca(k) == i1.ids_marca(k) by {
        let a = aporte(tokens_de(minusculas_de(p.marca@)), k, p.id);
        assert(i0.ids_marca(k).union(a).union(a) =~= i0.ids_marca(k).union(a));
    }
    assert forall|k: Seq<char>| #[trigger] i2.ids_categoria(k) == i1.ids_categoria(k) by {
        let a = aporte(tokens_de(minusculas_de(p.categoria@)), k, p.id);
        assert(i0.ids_categoria(k).union(a).union(a) =~= i0.ids_categoria(k).union(a));
    }
    assert forall|q: Seq<char>| #[trigger] i2.resultado(q) == i1.resultado(q) by {
        lema_uniao_congruente(i2, i1, tokens_de(minusculas_de(q)));
    }
}

proof fn lema_uniao_congruente(a: IndiceInverso, b: IndiceInverso, ts: Seq<Seq<char>>)
    requires
        forall|k: Seq<char>| #[trigger] a.ids_texto(k) == b.ids_texto(k),
    ensures
        uniao_tokens(a, ts) == uniao_tokens(b, ts),
    decreases ts.len(),
{
    if ts.len() > 0 {
        lema_uniao_congruente(a, b, ts.drop_last());
    }
}

/// Law: OR-semantics — a query's result holds an id exactly when at least one
/// of the query's tokens maps to that id in the combined map.
pub proof fn lema_ou_semantica(i: IndiceInverso, q: Seq<char>, id: u32)
    ensures
        i.resultado(q).contains(id) <==> exists|j: int|
            0 <= j < tokens_de(minusculas_de(q)).len() && i.ids_texto(
                tokens_de(minusculas_de(q))[j],
            ).contains(id),
{
    lema_uniao_contem(i, tokens_de(minusculas_de(q)), id);
}

proof fn lema_uniao_contem(i: IndiceInverso, ts: Seq<Seq<char>>, id: u32)
    ensures
        uniao_tokens(i, ts).contains(id) <==> exists|j: int|
            0 <= j < ts.len() && i.ids_texto(ts[j]).contains(id),
    decreases ts.len(),
{
    if ts.len() > 0 {
        lema_uniao_contem(i, ts.drop_last(), id);
        if uniao_tokens(i, ts).contains(id) {
            if i.ids_texto(ts.last()).contains(id) {
                assert(i.ids_texto(ts[ts.len() - 1]).contains(id));
            } else {
                let j = choose|j: int|
                    0 <= j < ts.drop_last().len() && i.ids_texto(ts.drop_last()[j]).contains(id);
                assert(ts.drop_last()[j] == ts[j]);
                assert(i.ids_texto(ts[j]).contains(id));
            }
        }
        if exists|j: int| 0 <= j < ts.len() && i.ids_texto(ts[j]).contains(id) {
            let j = choose|j: int| 0 <= j < ts.len() && i.ids_texto(ts[j]).contains(id);
            if j < ts.len() - 1 {
                assert(ts.drop_last()[j] == ts[j]);
            }
        }
    }
}

} // verus!
