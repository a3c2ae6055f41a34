use megastore_search::indice::{Campo, IndiceInverso};
use megastore_search::produto::Produto;
use megastore_search::texto::ProcessadorTexto;

fn produto_samsung() -> Produto {
    Produto::new(
        1,
        "Smartphone Samsung".to_string(),
        "Samsung".to_string(),
        "Eletrônicos".to_string(),
        89999,
        "Descrição".to_string(),
    )
}

#[test]
fn test_indexacao_busca() {
    let mut indice = IndiceInverso::new();
    let produto = produto_samsung();

    indice.indexar_produto(&produto);

    let resultados = indice.buscar("samsung");
    assert!(resultados.contains(&1));

    let resultados = indice.buscar("eletrônicos");
    assert!(resultados.contains(&1));
}

#[test]
fn test_busca_inexistente() {
    let indice = IndiceInverso::new();
    let resultados = indice.buscar("inexistente");
    assert!(resultados.is_empty());
}

#[test]
fn test_tokenizacao_basica() {
    let p = ProcessadorTexto::new();
    let tokens = p.processar("Smartphone Samsung!");
    assert_eq!(tokens, vec!["smartphone".to_string(), "samsung".to_string()]);
}

#[test]
fn test_tokenizacao_vazia() {
    let p = ProcessadorTexto::new();
    assert!(p.processar("  ").is_empty());
    assert!(p.processar("").is_empty());
}

#[test]
fn test_tokenizacao_so_pontuacao() {
    let p = ProcessadorTexto::new();
    assert!(p.processar("!!! ... ???").is_empty());
}

#[test]
fn test_tokenizacao_pontuacao_interna() {
    let p = ProcessadorTexto::new();
    assert_eq!(p.processar("Co-op!"), vec!["co-op".to_string()]);
}

#[test]
fn test_tokenizacao_minusculas() {
    let p = ProcessadorTexto::new();
    assert_eq!(p.processar("ABC Def"), vec!["abc".to_string(), "def".to_string()]);
}

#[test]
fn test_termo_normalizado() {
    let p = ProcessadorTexto::new();
    assert_eq!(p.processar_termo("  Samsung!  "), "samsung".to_string());
    assert_eq!(p.processar_termo("Eletrônicos"), "eletrônicos".to_string());
}

#[test]
fn test_ou_semantica() {
    let mut indice = IndiceInverso::new();
    indice.indexar_produto(&produto_samsung());
    let nokia = Produto::new(
        2,
        "Celular Nokia".to_string(),
        "Nokia".to_string(),
        "Eletrônicos".to_string(),
        19999,
        "Outro".to_string(),
    );
    indice.indexar_produto(&nokia);

    // OR semantics: either token alone qualifies a record.
    let ambos = indice.buscar("samsung smartphone");
    assert!(ambos.contains(&1));
    let misto = indice.buscar("nokia smartphone");
    assert!(misto.contains(&1));
    assert!(misto.contains(&2));
    assert_eq!(misto.len(), 2);
}

#[test]
fn test_indexacao_idempotente() {
    let mut uma = IndiceInverso::new();
    uma.indexar_produto(&produto_samsung());
    let mut duas = IndiceInverso::new();
    duas.indexar_produto(&produto_samsung());
    duas.indexar_produto(&produto_samsung());

    for consulta in ["samsung", "smartphone", "eletrônicos", "nada"] {
        assert_eq!(uma.buscar(consulta), duas.buscar(consulta));
    }
}

#[test]
fn test_busca_por_campo() {
    let mut indice = IndiceInverso::new();
    indice.indexar_produto(&produto_samsung());

    assert_eq!(indice.buscar_no_indice("Smartphone", Campo::Nome), vec![1]);
    assert_eq!(indice.buscar_no_indice("samsung", Campo::Marca), vec![1]);
    assert_eq!(indice.buscar_no_indice("Eletrônicos", Campo::Categoria), vec![1]);
    assert_eq!(indice.buscar_no_indice("samsung", Campo::Texto), vec![1]);
    assert!(indice.buscar_no_indice("smartphone", Campo::Marca).is_empty());
}
