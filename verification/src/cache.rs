use vstd::prelude::*;

verus! {

#[verifier::external_type_specification]
#[verifier::external_body]
#[verifier::reject_recursive_types(K)]
#[verifier::reject_recursive_types(V)]
#[verifier::reject_recursive_types(S)]
pub struct ExLruCache<K, V, S>(lru::LruCache<K, V, S>);

#[verifier::external_type_specification]
#[verifier::external_body]
pub struct ExDefaultHashBuilder(hashbrown::DefaultHashBuilder);

/// What the cache holds: its (key, (ids, timestamp)) entries in recency
/// order, the most recently used first.
pub uninterp spec fn itens_lru(c: &lru::LruCache<String, (Vec<u32>, u64)>) -> Seq<
    (Seq<char>, (Seq<u32>, u64)),
>;

/// The bound the cache was constructed with.
pub uninterp spec fn limite_lru(c: &lru::LruCache<String, (Vec<u32>, u64)>) -> nat;

/// The position of the entry keyed `k`, or -1 when absent.
pub open spec fn indice_chave(itens: Seq<(Seq<char>, (Seq<u32>, u64))>, k: Seq<char>) -> int
    decreases itens.len(),
{
    if itens.len() == 0 {
        -1
    } else if itens[0].0 == k {
        0
    } else {
        let r = indice_chave(itens.drop_first(), k);
        if r < 0 {
            -1
        } else {
            r + 1
        }
    }
}

pub open spec fn tem_chave(itens: Seq<(Seq<char>, (Seq<u32>, u64))>, k: Seq<char>) -> bool {
    indice_chave(itens, k) >= 0
}

/// Keys are pairwise distinct.
pub open spec fn chaves_distintas(itens: Seq<(Seq<char>, (Seq<u32>, u64))>) -> bool {
    forall|i: int, j: int| 0 <= i < j < itens.len() ==> itens[i].0 != itens[j].0
}

proof fn lema_indice(itens: Seq<(Seq<char>, (Seq<u32>, u64))>, k: Seq<char>)
    ensures
        indice_chave(itens, k) >= 0 ==> 0 <= indice_chave(itens, k) < itens.len() && itens[
            indice_chave(itens, k)
        ].0 == k && (forall|j: int| 0 <= j < indice_chave(itens, k) ==> itens[j].0 != k),
        indice_chave(itens, k) < 0 ==> (forall|j: int| 0 <= j < itens.len() ==> itens[j].0 != k),
    decreases itens.len(),
{
    if itens.len() > 0 && itens[0].0 != k {
        let t = itens.drop_first();
        lema_indice(t, k);
        let p = indice_chave(itens, k);
        if p >= 0 {
            assert(itens[p] == t[p - 1]);
            assert forall|j: int| 0 <= j < p implies itens[j].0 != k by {
                if j > 0 {
                    assert(itens[j] == t[j - 1]);
                }
            }
        } else {
            assert forall|j: int| 0 <= j < itens.len() implies itens[j].0 != k by {
                if j > 0 {
                    assert(itens[j] == t[j - 1]);
                }
            }
        }
    }
}

/// Relies on `lru::LruCache::new`: a cache that holds at most `capacidade`
/// entries and starts empty. The body turns the plain bound into the
/// non-zero form the constructor takes, which a bound of zero would refuse.
#[verifier::external_body]
fn lru_novo(capacidade: usize) -> (r: lru::LruCache<String, (Vec<u32>, u64)>)
    requires
        capacidade >= 1,
    ensures
        itens_lru(&r) == Seq::<(Seq<char>, (Seq<u32>, u64))>::empty(),
        limite_lru(&r) == capacidade,
{
    lru::LruCache::new(std::num::NonZeroUsize::new(capacidade).unwrap())
}

/// Relies on `lru::LruCache::get`: a hit moves the entry to most-recent and
/// returns its value, a miss changes nothing. The body copies the value out.
#[verifier::external_body]
fn lru_obter(c: &mut lru::LruCache<String, (Vec<u32>, u64)>, chave: &String) -> (r: Option<
    (Vec<u32>, u64),
>)
    ensures
        limite_lru(final(c)) == limite_lru(old(c)),
        ({
            let itens = itens_lru(old(c));
            let i = indice_chave(itens, chave@);
            if i >= 0 {
                r matches Some(v) && (v.0@, v.1) == itens[i].1 && itens_lru(final(c)) == seq![
                    itens[i],
                ] + itens.remove(i)
            } else {
                r is None && itens_lru(final(c)) == itens
            }
        }),
{
    c.get(chave).cloned()
}

/// Relies on `lru::LruCache::put`: an existing key is given the new value
/// and moved to most-recent; a fresh key is inserted at most-recent, and
/// when the cache is full the least-recently-used entry is dropped first.
#[verifier::external_body]
fn lru_inserir(
    c: &mut lru::LruCache<String, (Vec<u32>, u64)>,
    chave: String,
    ids: Vec<u32>,
    momento: u64,
)
    ensures
        limite_lru(final(c)) == limite_lru(old(c)),
        ({
            let itens = itens_lru(old(c));
            let e = (chave@, (ids@, momento));
            let i = indice_chave(itens, chave@);
            if i >= 0 {
                itens_lru(final(c)) == seq![e] + itens.remove(i)
            } else if itens.len() < limite_lru(old(c)) {
                itens_lru(final(c)) == seq![e] + itens
            } else {
                itens_lru(final(c)) == seq![e] + itens.drop_last()
            }
        }),
{
    c.put(chave, (ids, momento));
}

/// Relies on `lru::LruCache::pop`: removes the key's entry, returning its
/// value; the order of the remaining entries is unchanged.
#[verifier::external_body]
fn lru_remover(c: &mut lru::LruCache<String, (Vec<u32>, u64)>, chave: &String) -> (r: Option<
    (Vec<u32>, u64),
>)
    ensures
        limite_lru(final(c)) == limite_lru(old(c)),
        ({
            let itens = itens_lru(old(c));
            let i = indice_chave(itens, chave@);
            if i >= 0 {
                r matches Some(v) && (v.0@, v.1) == itens[i].1 && itens_lru(final(c))
                    == itens.remove(i)
            } else {
                r is None && itens_lru(final(c)) == itens
            }
        }),
{
    c.pop(chave)
}

/// Relies on `lru::LruCache::clear`: empties the cache.
#[verifier::external_body]
fn lru_limpar(c: &mut lru::LruCache<String, (Vec<u32>, u64)>)
    ensures
        limite_lru(final(c)) == limite_lru(old(c)),
        itens_lru(final(c)) == Seq::<(Seq<char>, (Seq<u32>, u64))>::empty(),
{
    c.clear()
}

/// Relies on `lru::LruCache::len`: the number of entries held.
#[verifier::external_body]
fn lru_tamanho(c: &lru::LruCache<String, (Vec<u32>, u64)>) -> (r: usize)
    ensures
        r == itens_lru(c).len(),
{
    c.len()
}

/// Relies on the system clock (`std::time::SystemTime`): a current timestamp
/// in milliseconds. Nothing is promised of the reading; callers state what
/// holds of every value.
#[verifier::external_body]
fn agora_ms() -> u64 {
    match std::time::SystemTime::now().duration_since(std::time::UNIX_EPOCH) {
        Ok(d) => d.as_millis() as u64,
        Err(_) => 0,
    }
}

/// An entry stamped at `momento` is fresh at `agora` while its age is
/// strictly below `tempo_vida`.
pub open spec fn fresco(momento: u64, tempo_vida: u64, agora: u64) -> bool {
    agora < momento + tempo_vida
}

/// What a lookup of `k` at time `agora` must return.
pub open spec fn resposta(
    itens: Seq<(Seq<char>, (Seq<u32>, u64))>,
    k: Seq<char>,
    tempo_vida: u64,
    agora: u64,
) -> Option<Seq<u32>> {
    let i = indice_chave(itens, k);
    if i >= 0 && fresco(itens[i].1.1, tempo_vida, agora) {
        Some(itens[i].1.0)
    } else {
        None
    }
}

/// The view of an optional id vector.
pub open spec fn vista_opcional(r: Option<Vec<u32>>) -> Option<Seq<u32>> {
    match r {
        Some(v) => Some(v@),
        None => None,
    }
}

/// How `depois` relates to `antes` after `chave` was inserted with value
/// `ids` at time `momento`: the entry stands most-recent; an older entry of
/// the same key is gone; a fresh key in a full cache costs the
/// least-recently-used entry.
pub open spec fn inserido_em(
    antes: CacheBusca,
    depois: CacheBusca,
    chave: Seq<char>,
    ids: Seq<u32>,
    momento: u64,
) -> bool {
    &&& depois.tempo_vida() == antes.tempo_vida()
    &&& depois.limite() == antes.limite()
    &&& ({
        let itens = antes.itens();
        let e = (chave, (ids, momento));
        let i = indice_chave(itens, chave);
        depois.itens() == (if i >= 0 {
            seq![e] + itens.remove(i)
        } else if itens.len() < antes.limite() {
            seq![e] + itens
        } else {
            seq![e] + itens.drop_last()
        })
    })
}

/// How `depois` relates to `antes` after `chave` was looked up at time
/// `agora`: a fresh hit is promoted to most-recent, an expired entry is
/// dropped, a miss changes nothing.
pub open spec fn consultado_em(
    antes: CacheBusca,
    depois: CacheBusca,
    chave: Seq<char>,
    agora: u64,
) -> bool {
    &&& depois.tempo_vida() == antes.tempo_vida()
    &&& depois.limite() == antes.limite()
    &&& ({
        let itens = antes.itens();
        let i = indice_chave(itens, chave);
        depois.itens() == (if i >= 0 && fresco(itens[i].1.1, antes.tempo_vida(), agora) {
            seq![itens[i]] + itens.remove(i)
        } else if i >= 0 {
            itens.remove(i)
        } else {
            itens
        })
    })
}

/// A query-result cache with time-based expiry under an LRU eviction bound.
pub struct CacheBusca {
    cache: lru::LruCache<String, (Vec<u32>, u64)>,
    tempo_vida: u64,
}

impl CacheBusca {
    pub closed spec fn itens(&self) -> Seq<(Seq<char>, (Seq<u32>, u64))> {
        itens_lru(&self.cache)
    }

    pub closed spec fn limite(&self) -> nat {
        limite_lru(&self.cache)
    }

    pub closed spec fn tempo_vida(&self) -> u64 {
        self.tempo_vida
    }

    pub open spec fn bem_formado(&self) -> bool {
        chaves_distintas(self.itens()) && self.itens().len() <= self.limite() && self.limite() >= 1
    }

    /// A cache bounded to `capacidade` entries, each visible for strictly
    /// less than `tempo_vida` milliseconds after its insertion. A bound of
    /// zero is a configuration error and is rejected here.
    pub fn new(capacidade: usize, tempo_vida: u64) -> (r: Self)
        requires
            capacidade >= 1,
        ensures
            r.bem_formado(),
            r.itens() == Seq::<(Seq<char>, (Seq<u32>, u64))>::empty(),
            r.limite() == capacidade,
            r.tempo_vida() == tempo_vida,
    {
        CacheBusca { cache: lru_novo(capacidade), tempo_vida }
    }

    /// Looks `chave` up as of time `agora`: returns the cached ids while the
    /// entry is fresh, promoting it to most-recent; evicts an expired entry
    /// as a side effect and reports a miss.
    pub fn obter_em(&mut self, chave: &str, agora: u64) -> (r: Option<Vec<u32>>)
        requires
            old(self).bem_formado(),
        ensures
            final(self).bem_formado(),
            vista_opcional(r) == resposta(old(self).itens(), chave@, old(self).tempo_vida(), agora),
            consultado_em(*old(self), *final(self), chave@, agora),
    {
        let ghost itens = self.itens();
        let k = String::from_str(chave);
        let r = match lru_obter(&mut self.cache, &k) {
            Some(par) => {
                let expirado = match par.1.checked_add(self.tempo_vida) {
                    Some(lim) => agora >= lim,
                    None => false,
                };
                proof {
                    lema_indice(itens, chave@);
                }
                if !expirado {
                    Some(par.0)
                } else {
                    let ghost i = indice_chave(itens, chave@);
                    let ghost meio = self.itens();
                    proof {
                        assert(meio == seq![itens[i]] + itens.remove(i));
                        assert(meio[0] == itens[i]);
                        assert(indice_chave(meio, chave@) == 0);
                    }
                    lru_remover(&mut self.cache, &k);
                    proof {
                        assert(self.itens() == meio.remove(0));
                        assert(meio.remove(0) =~= itens.remove(i));
                    }
                    None
                }
            },
            None => None,
        };
        proof {
            lema_indice(itens, chave@);
            let i = indice_chave(itens, chave@);
            if i >= 0 {
                assert(chaves_distintas(self.itens()) && self.itens().len() <= self.limite()) by {
                    assert forall|a: int, b: int|
                        0 <= a < b < self.itens().len() implies self.itens()[a].0
                        != self.itens()[b].0 by {
                        lema_posicoes_promocao(itens, i, a, b);
                    }
                }
            }
        }
        r
    }

    /// Inserts or overwrites `chave` with `resultados` as of time `agora`.
    pub fn inserir_em(&mut self, chave: String, resultados: Vec<u32>, agora: u64)
        requires
            old(self).bem_formado(),
        ensures
            final(self).bem_formado(),
            inserido_em(*old(self), *final(self), chave@, resultados@, agora),
    {
        let ghost itens = self.itens();
        let ghost e = (chave@, (resultados@, agora));
        lru_inserir(&mut self.cache, chave, resultados, agora);
        proof {
            lema_indice(itens, e.0);
            let i = indice_chave(itens, e.0);
            let novos = self.itens();
            assert(novos[0] == e);
            if i >= 0 {
                assert forall|a: int, b: int| 0 <= a < b < novos.len() implies novos[a].0
                    != novos[b].0 by {
                    lema_posicoes_promocao(itens, i, a, b);
                }
            } else if itens.len() < self.limite() {
                assert forall|a: int, b: int| 0 <= a < b < novos.len() implies novos[a].0
                    != novos[b].0 by {
                    assert(novos[b] == itens[b - 1]);
                    if a > 0 {
                        assert(novos[a] == itens[a - 1]);
                    }
                }
            } else {
                assert(itens.len() == self.limite());
                assert forall|a: int, b: int| 0 <= a < b < novos.len() implies novos[a].0
                    != novos[b].0 by {
                    assert(novos[b] == itens[b - 1]);
                    if a > 0 {
                        assert(novos[a] == itens[a - 1]);
                    }
                }
            }
        }
    }

    /// Looks `chave` up at the present moment. Whatever the clock read: a
    /// missing key stays a miss and changes nothing; a present entry either
    /// comes back with its cached ids, promoted, or was expired and is gone.
    pub fn obter(&mut self, chave: &str) -> (r: Option<Vec<u32>>)
        requires
            old(self).bem_formado(),
        ensures
            final(self).bem_formado(),
            ({
                let itens = old(self).itens();
                let i = indice_chave(itens, chave@);
                if i < 0 {
                    r is None && final(self).itens() == itens
                } else {
                    (r matches Some(v) && v@ == itens[i].1.0 && final(self).itens() == seq![
                        itens[i],
                    ] + itens.remove(i)) || (r is None && final(self).itens() == itens.remove(i))
                }
            }),
            final(self).limite() == old(self).limite(),
            final(self).tempo_vida() == old(self).tempo_vida(),
    {
        let agora = agora_ms();
        self.obter_em(chave, agora)
    }

    /// Inserts or overwrites `chave` with `resultados`, stamped with the
    /// present moment.
    pub fn inserir(&mut self, chave: String, resultados: Vec<u32>)
        requires
            old(self).bem_formado(),
        ensures
            final(self).bem_formado(),
            final(self).itens().len() >= 1,
            final(self).itens()[0].0 == chave@,
            final(self).itens()[0].1.0 == resultados@,
            final(self).itens().drop_first() == ({
                let itens = old(self).itens();
                let i = indice_chave(itens, chave@);
                if i >= 0 {
                    itens.remove(i)
                } else if itens.len() < old(self).limite() {
                    itens
                } else {
                    itens.drop_last()
                }
            }),
            final(self).limite() == old(self).limite(),
            final(self).tempo_vida() == old(self).tempo_vida(),
    {
        let agora = agora_ms();
        let ghost chave_v = chave@;
        self.inserir_em(chave, resultados, agora);
        proof {
            let itens = old(self).itens();
            let i = indice_chave(itens, chave_v);
            if i >= 0 {
                assert((seq![self.itens()[0]] + itens.remove(i)).drop_first() =~= itens.remove(i));
            } else if itens.len() < old(self).limite() {
                assert((seq![self.itens()[0]] + itens).drop_first() =~= itens);
            } else {
                assert((seq![self.itens()[0]] + itens.drop_last()).drop_first() =~= itens.drop_last());
            }
        }
    }

    /// Empties the cache unconditionally.
    pub fn limpar(&mut self)
        requires
            old(self).bem_formado(),
        ensures
            final(self).bem_formado(),
            final(self).itens() == Seq::<(Seq<char>, (Seq<u32>, u64))>::empty(),
            final(self).limite() == old(self).limite(),
            final(self).tempo_vida() == old(self).tempo_vida(),
    {
        lru_limpar(&mut self.cache);
    }

    /// The current entry count — not-yet-expired and expired-but-unpurged
    /// entries alike, since expiry is lazy.
    pub fn estatisticas(&self) -> (r: usize)
        ensures
            r == self.itens().len(),
    {
        lru_tamanho(&self.cache)
    }
}

proof fn lema_posicoes_promocao(itens: Seq<(Seq<char>, (Seq<u32>, u64))>, i: int, a: int, b: int)
    requires
        chaves_distintas(itens),
        0 <= i < itens.len(),
        0 <= a < b < (seq![itens[i]] + itens.remove(i)).len(),
    ensures
        (seq![itens[i]] + itens.remove(i))[a].0 != (seq![itens[i]] + itens.remove(i))[b].0,
{
    let novos = seq![itens[i]] + itens.remove(i);
    assert(novos.len() == itens.len());
    if a == 0 {
        if b - 1 < i {
            assert(novos[b] == itens[b - 1]);
        } else {
            assert(novos[b] == itens[b]);
        }
    } else {
        if a - 1 < i {
            assert(novos[a] == itens[a - 1]);
        } else {
            assert(novos[a] == itens[a]);
        }
        if b - 1 < i {
            assert(novos[b] == itens[b - 1]);
        } else {
            assert(novos[b] == itens[b]);
        }
    }
}

/// Law (expiry): right after `chave` was inserted at `t1`, a lookup at any
/// `t2` strictly within the time-to-live returns exactly the cached ids,
/// and a lookup at any `t2` at or past it misses.
pub proof fn lema_ttl(
    c0: CacheBusca,
    c1: CacheBusca,
    chave: Seq<char>,
    ids: Seq<u32>,
    t1: u64,
    t2: u64,
)
    requires
        inserido_em(c0, c1, chave, ids, t1),
    ensures
        fresco(t1, c1.tempo_vida(), t2) ==> resposta(c1.itens(), chave, c1.tempo_vida(), t2)
            == Some(ids),
        !fresco(t1, c1.tempo_vida(), t2) ==> resposta(c1.itens(), chave, c1.tempo_vida(), t2)
            is None,
{
    assert(c1.itens()[0] == (chave, (ids, t1)));
    assert(indice_chave(c1.itens(), chave) == 0);
}

/// Law (LRU eviction): in a cache bounded to two entries that starts empty,
/// inserting distinct keys `a`, `b`, `c` in that order, with no access in
/// between, evicts `a` — the least recently used — and keeps `b` and `c`.
pub proof fn lema_lru_sem_acesso(
    c0: CacheBusca,
    c1: CacheBusca,
    c2: CacheBusca,
    c3: CacheBusca,
    a: Seq<char>,
    b: Seq<char>,
    c: Seq<char>,
    va: Seq<u32>,
    vb: Seq<u32>,
    vc: Seq<u32>,
    ta: u64,
    tb: u64,
    tc: u64,
)
    requires
        c0.itens().len() == 0,
        c0.limite() == 2,
        inserido_em(c0, c1, a, va, ta),
        inserido_em(c1, c2, b, vb, tb),
        inserido_em(c2, c3, c, vc, tc),
        a != b,
        a != c,
        b != c,
    ensures
        !tem_chave(c3.itens(), a),
        tem_chave(c3.itens(), b),
        tem_chave(c3.itens(), c),
{
    reveal_with_fuel(indice_chave, 4);
    let ea = (a, (va, ta));
    let eb = (b, (vb, tb));
    let ec = (c, (vc, tc));
    assert(c0.itens() =~= Seq::<(Seq<char>, (Seq<u32>, u64))>::empty());
    assert(indice_chave(c0.itens(), a) == -1);
    assert(c1.itens() =~= seq![ea]);
    assert(seq![ea].drop_first() =~= Seq::<(Seq<char>, (Seq<u32>, u64))>::empty());
    assert(indice_chave(c1.itens(), b) == -1);
    assert(c2.itens() =~= seq![eb, ea]);
    assert(seq![eb, ea].drop_first() =~= seq![ea]);
    assert(indice_chave(seq![ea], c) == -1);
    assert(indice_chave(c2.itens(), c) == -1);
    assert(c2.limite() == 2 && c2.itens().len() == 2);
    assert(seq![eb, ea].drop_last() =~= seq![eb]);
    assert(c3.itens() =~= seq![ec, eb]);
    assert(seq![ec, eb].drop_first() =~= seq![eb]);
    assert(seq![eb].drop_first() =~= Seq::<(Seq<char>, (Seq<u32>, u64))>::empty());
    assert(indice_chave(seq![eb], a) == -1);
    assert(indice_chave(c3.itens(), a) == -1);
    assert(indice_chave(seq![eb], b) == 0);
    assert(indice_chave(c3.itens(), b) == 1);
    assert(indice_chave(c3.itens(), c) == 0);
}

/// Law (LRU eviction, use refreshes): as above, but when `a` is looked up —
/// and found fresh — between the second and third insertion, the third
/// insertion evicts `b` instead, keeping `a` and `c`.
pub proof fn lema_lru_com_acesso(
    c0: CacheBusca,
    c1: CacheBusca,
    c2: CacheBusca,
    c2b: CacheBusca,
    c3: CacheBusca,
    a: Seq<char>,
    b: Seq<char>,
    c: Seq<char>,
    va: Seq<u32>,
    vb: Seq<u32>,
    vc: Seq<u32>,
    ta: u64,
    tb: u64,
    t: u64,
    tc: u64,
)
    requires
        c0.itens().len() == 0,
        c0.limite() == 2,
        inserido_em(c0, c1, a, va, ta),
        inserido_em(c1, c2, b, vb, tb),
        consultado_em(c2, c2b, a, t),
        fresco(ta, c2.tempo_vida(), t),
        inserido_em(c2b, c3, c, vc, tc),
        a != b,
        a != c,
        b != c,
    ensures
        tem_chave(c3.itens(), a),
        !tem_chave(c3.itens(), b),
        tem_chave(c3.itens(), c),
{
    reveal_with_fuel(indice_chave, 4);
    let ea = (a, (va, ta));
    let eb = (b, (vb, tb));
    let ec = (c, (vc, tc));
    assert(c0.itens() =~= Seq::<(Seq<char>, (Seq<u32>, u64))>::empty());
    assert(indice_chave(c0.itens(), a) == -1);
    assert(c1.itens() =~= seq![ea]);
    assert(seq![ea].drop_first() =~= Seq::<(Seq<char>, (Seq<u32>, u64))>::empty());
    assert(indice_chave(c1.itens(), b) == -1);
    assert(c2.itens() =~= seq![eb, ea]);
    assert(seq![eb, ea].drop_first() =~= seq![ea]);
    assert(indice_chave(seq![ea], a) == 0);
    assert(indice_chave(c2.itens(), a) == 1);
    assert(c2.itens()[1] == ea);
    assert(seq![eb, ea].remove(1) =~= seq![eb]);
    assert(c2b.itens() =~= seq![ea, eb]);
    assert(seq![ea, eb].drop_first() =~= seq![eb]);
    assert(seq![eb].drop_first() =~= Seq::<(Seq<char>, (Seq<u32>, u64))>::empty());
    assert(indice_chave(seq![eb], c) == -1);
    assert(indice_chave(c2b.itens(), c) == -1);
    assert(c2b.limite() == 2 && c2b.itens().len() == 2);
    assert(seq![ea, eb].drop_last() =~= seq![ea]);
    assert(c3.itens() =~= seq![ec, ea]);
    assert(seq![ec, ea].drop_first() =~= seq![ea]);
    assert(indice_chave(seq![ea], b) == -1);
    assert(indice_chave(c3.itens(), b) == -1);
    assert(indice_chave(c3.itens(), a) == 1);
    assert(indice_chave(c3.itens(), c) == 0);
}

} // verus!
