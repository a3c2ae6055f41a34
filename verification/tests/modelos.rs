use megastore_search::produto::Produto;

#[test]
fn test_criacao_produto() {
    let produto = Produto::new(
        1,
        "Teste".to_string(),
        "Marca".to_string(),
        "Categoria".to_string(),
        10000,
        "Descrição".to_string(),
    );

    assert_eq!(produto.id, 1);
    assert_eq!(produto.nome, "Teste");
    assert_eq!(produto.preco_centavos, 10000);
}

#[test]
fn test_clone_produto() {
    let produto = Produto::new(
        1,
        "Teste".to_string(),
        "Marca".to_string(),
        "Categoria".to_string(),
        10000,
        "Descrição".to_string(),
    );
    let clone = produto.clone();

    assert_eq!(produto.id, clone.id);
    assert_eq!(produto.nome, clone.nome);
}
