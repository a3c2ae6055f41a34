use vstd::prelude::*;

verus! {

/// A catalog record: an immutable identity and short text fields. The price
/// is held in cents, so the whole record is made of plain values.
#[derive(Debug)]
pub struct Produto {
    pub id: u32,
    pub nome: String,
    pub marca: String,
    pub categoria: String,
    pub preco_centavos: u64,
    pub descricao: String,
}

impl Produto {
    pub fn new(
        id: u32,
        nome: String,
        marca: String,
        categoria: String,
        preco_centavos: u64,
        descricao: String,
    ) -> (r: Self)
        ensures
            r.id == id,
            r.nome == nome,
            r.marca == marca,
            r.categoria == categoria,
            r.preco_centavos == preco_centavos,
            r.descricao == descricao,
    {
        Produto { id, nome, marca, categoria, preco_centavos, descricao }
    }
}

impl Clone for Produto {
    fn clone(&self) -> (r: Self)
        ensures
            r == *self,
    {
        Produto {
            id: self.id,
            nome: self.nome.clone(),
            marca: self.marca.clone(),
            categoria: self.categoria.clone(),
            preco_centavos: self.preco_centavos,
            descricao: self.descricao.clone(),
        }
    }
}

} // verus!
