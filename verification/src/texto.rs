use vstd::prelude::*;

verus! {

/// The result of `str::to_lowercase`, given a name: the Unicode
/// lower-casing of a character sequence, a function of the characters alone.
pub uninterp spec fn minusculas_de(s: Seq<char>) -> Seq<char>;

/// The result of `char::is_whitespace`, given a name: whether the character
/// has the Unicode whitespace property.
pub uninterp spec fn eh_espaco(c: char) -> bool;

/// The result of `char::is_alphanumeric`, given a name: whether the character
/// is a Unicode letter or digit.
pub uninterp spec fn eh_alfanumerico(c: char) -> bool;

/// Relies on `str::to_lowercase`: the returned string is the Unicode
/// lower-casing of the input, a function of the input characters alone.
#[verifier::external_body]
fn minusculas(s: &str) -> (r: String)
    ensures
        r@ == minusculas_de(s@),
{
    s.to_lowercase()
}

/// Relies on `char::is_whitespace`: a property of the character alone.
#[verifier::external_body]
fn espaco(c: char) -> (r: bool)
    ensures
        r == eh_espaco(c),
{
    c.is_whitespace()
}

/// Relies on `char::is_alphanumeric`: a property of the character alone.
#[verifier::external_body]
fn alfanumerico(c: char) -> (r: bool)
    ensures
        r == eh_alfanumerico(c),
{
    c.is_alphanumeric()
}

/// Relies on `String`'s `FromIterator` over `char`: collecting a character
/// vector yields the string of exactly those characters, in order.
#[verifier::external_body]
fn texto_dos_chars(v: &Vec<char>) -> (r: String)
    ensures
        r@ == v@,
{
    v.iter().collect()
}

/// A fragment with its leading non-alphanumeric characters removed.
pub open spec fn recorte_frente(f: Seq<char>) -> Seq<char>
    decreases f.len(),
{
    if f.len() == 0 {
        f
    } else if eh_alfanumerico(f[0]) {
        f
    } else {
        recorte_frente(f.drop_first())
    }
}

/// A fragment with its trailing non-alphanumeric characters removed.
pub open spec fn recorte_tras(f: Seq<char>) -> Seq<char>
    decreases f.len(),
{
    if f.len() == 0 {
        f
    } else if eh_alfanumerico(f.last()) {
        f
    } else {
        recorte_tras(f.drop_last())
    }
}

/// A fragment stripped of non-alphanumeric characters at both ends; internal
/// punctuation is preserved.
pub open spec fn recorte(f: Seq<char>) -> Seq<char> {
    recorte_tras(recorte_frente(f))
}

/// The tokens a closed fragment contributes: its stripped form, or nothing
/// when stripping leaves it empty.
pub open spec fn token_de(f: Seq<char>) -> Seq<Seq<char>> {
    if recorte(f).len() == 0 {
        Seq::empty()
    } else {
        seq![recorte(f)]
    }
}

/// One left-to-right sweep over `s` from position `i`: `feitos` are the
/// tokens already produced, `atual` the fragment currently open. Whitespace
/// closes the open fragment; any other character extends it.
pub open spec fn varre(s: Seq<char>, i: int, feitos: Seq<Seq<char>>, atual: Seq<char>) -> Seq<
    Seq<char>,
>
    decreases s.len() - i,
{
    if i < 0 || i >= s.len() {
        feitos + token_de(atual)
    } else if eh_espaco(s[i]) {
        varre(s, i + 1, feitos + token_de(atual), Seq::empty())
    } else {
        varre(s, i + 1, feitos, atual.push(s[i]))
    }
}

/// The tokens of a character sequence: split on whitespace runs, strip
/// non-alphanumeric characters from both ends of each fragment, and drop
/// fragments that become empty.
pub open spec fn tokens_de(s: Seq<char>) -> Seq<Seq<char>> {
    varre(s, 0, Seq::empty(), Seq::empty())
}

/// The canonical normalization of a single lookup term: lower-case it, then
/// strip non-alphanumeric characters (whitespace included) from both ends.
/// This is the same rule a single-fragment text goes through when indexed,
/// so term lookups and indexing agree on one normalization.
pub open spec fn termo_normalizado(s: Seq<char>) -> Seq<char> {
    recorte(minusculas_de(s))
}

/// The character sequences of a sequence of strings.
pub open spec fn vistas(ts: Seq<String>) -> Seq<Seq<char>> {
    ts.map_values(|t: String| t@)
}

proof fn lema_vistas_push(ts: Seq<String>, t: String)
    ensures
        vistas(ts.push(t)) == vistas(ts).push(t@),
{
    assert(vistas(ts.push(t)) =~= vistas(ts).push(t@));
}

/// Normalizes raw text into index tokens.
pub struct ProcessadorTexto;

impl ProcessadorTexto {
    pub fn new() -> (r: Self) {
        ProcessadorTexto
    }

    /// Tokenizes `texto`: lower-cases it, splits it on whitespace, strips
    /// non-alphanumeric characters from both ends of every fragment, and
    /// discards fragments that become empty.
    pub fn processar(&self, texto: &str) -> (r: Vec<String>)
        ensures
            vistas(r@) == tokens_de(minusculas_de(texto@)),
    {
        let baixo = minusculas(texto);
        let s = baixo.as_str();
        let n = s.unicode_len();
        let ghost alvo = tokens_de(s@);
        let mut feitos: Vec<String> = Vec::new();
        let mut atual: Vec<char> = Vec::new();
        let mut i: usize = 0;
        proof {
            assert(vistas(feitos@) =~= Seq::<Seq<char>>::empty());
        }
        while i < n
            invariant
                n == s@.len(),
                s@ == minusculas_de(texto@),
                i <= n,
                varre(s@, i as int, vistas(feitos@), atual@) == alvo,
                alvo == tokens_de(s@),
            decreases n - i,
        {
            let c = s.get_char(i);
            if espaco(c) {
                let ghost feitos_antes = vistas(feitos@);
                let ghost atual_antes = atual@;
                let rec = recortar(&atual);
                if rec.len() > 0 {
                    let t = texto_dos_chars(&rec);
                    proof {
                        lema_vistas_push(feitos@, t);
                        assert(feitos_antes.push(t@) =~= feitos_antes + token_de(atual_antes));
                    }
                    feitos.push(t);
                } else {
                    proof {
                        assert(feitos_antes =~= feitos_antes + token_de(atual_antes));
                    }
                }
                atual = Vec::new();
            } else {
                atual.push(c);
            }
            i += 1;
        }
        let ghost feitos_antes = vistas(feitos@);
        let ghost atual_antes = atual@;
        let rec = recortar(&atual);
        if rec.len() > 0 {
            let t = texto_dos_chars(&rec);
            proof {
                lema_vistas_push(feitos@, t);
                assert(feitos_antes.push(t@) =~= feitos_antes + token_de(atual_antes));
            }
            feitos.push(t);
        } else {
            proof {
                assert(feitos_antes =~= feitos_antes + token_de(atual_antes));
            }
        }
        feitos
    }

    /// Normalizes a single lookup term with the canonical rule: lower-case,
    /// then strip non-alphanumeric characters from both ends. For a term
    /// without internal whitespace this is exactly the token `processar`
    /// would produce for it.
    pub fn processar_termo(&self, termo: &str) -> (r: String)
        ensures
            r@ == termo_normalizado(termo@),
    {
        let baixo = minusculas(termo);
        let s = baixo.as_str();
        let n = s.unicode_len();
        let mut v: Vec<char> = Vec::new();
        let mut j: usize = 0;
        while j < n
            invariant
                n == s@.len(),
                j <= n,
                v@ == s@.take(j as int),
            decreases n - j,
        {
            let c = s.get_char(j);
            proof {
                assert(s@.take(j as int).push(s@[j as int]) =~= s@.take(j + 1));
            }
            v.push(c);
            j += 1;
        }
        proof {
            assert(v@ =~= s@);
        }
        let rec = recortar(&v);
        texto_dos_chars(&rec)
    }
}

/// Strips non-alphanumeric characters from both ends of a character vector.
fn recortar(v: &Vec<char>) -> (r: Vec<char>)
    ensures
        r@ == recorte(v@),
{
    let mut ini: usize = 0;
    proof {
        assert(v@.skip(0) =~= v@);
    }
    while ini < v.len() && !alfanumerico(v[ini])
        invariant
            ini <= v.len(),
            recorte_frente(v@.skip(ini as int)) == recorte_frente(v@),
        decreases v.len() - ini,
    {
        proof {
            assert(v@.skip(ini as int).drop_first() =~= v@.skip(ini + 1));
        }
        ini += 1;
    }
    let ghost frente = v@.skip(ini as int);
    let mut r: Vec<char> = Vec::new();
    if ini == v.len() {
        proof {
            assert(frente =~= Seq::<char>::empty());
            assert(recorte(v@) =~= Seq::<char>::empty());
        }
        return r;
    }
    proof {
        assert(recorte_frente(v@) == frente);
    }
    let mut fim: usize = v.len();
    while fim > ini && !alfanumerico(v[fim - 1])
        invariant
            ini <= fim <= v.len(),
            recorte_tras(v@.subrange(ini as int, fim as int)) == recorte_tras(frente),
            frente == v@.skip(ini as int),
        decreases fim,
    {
        proof {
            let atual = v@.subrange(ini as int, fim as int);
            assert(atual.last() == v@[fim - 1]);
            assert(atual.drop_last() =~= v@.subrange(ini as int, fim - 1));
        }
        fim -= 1;
    }
    if fim == ini {
        proof {
            assert(v@.subrange(ini as int, fim as int) =~= Seq::<char>::empty());
            assert(recorte(v@) =~= Seq::<char>::empty());
        }
        return r;
    }
    proof {
        let alvo = v@.subrange(ini as int, fim as int);
        assert(alvo.last() == v@[fim - 1]);
        assert(recorte_tras(alvo) == alvo);
        assert(recorte(v@) == alvo);
    }
    let mut j: usize = ini;
    while j < fim
        invariant
            ini <= j <= fim <= v.len(),
            r@ == v@.subrange(ini as int, j as int),
        decreases fim - j,
    {
        proof {
            assert(v@.subrange(ini as int, j as int).push(v@[j as int]) =~= v@.subrange(
                ini as int,
                j + 1,
            ));
        }
        r.push(v[j]);
        j += 1;
    }
    r
}

} // verus!
