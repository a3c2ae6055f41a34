use megastore_search::recomendacao::GrafoRecomendacao;

#[test]
fn test_adicionar_e_recomendar() {
    let mut grafo = GrafoRecomendacao::new();
    grafo.adicionar_relacao(1, vec![3, 2]);
    assert_eq!(grafo.recomendar(1, 10), vec![2, 3]);
    assert_eq!(grafo.recomendar(1, 1), vec![2]);
    assert!(grafo.recomendar(9, 10).is_empty());
}

#[test]
fn test_relacoes_acumulam() {
    let mut grafo = GrafoRecomendacao::new();
    grafo.adicionar_relacao(1, vec![2, 3]);
    grafo.adicionar_relacao(1, vec![3, 4]);
    assert_eq!(grafo.recomendar(1, 10), vec![2, 3, 4]);
}

#[test]
fn test_recomendar_baseado_carrinho() {
    let mut grafo = GrafoRecomendacao::new();
    grafo.adicionar_relacao(1, vec![2, 5]);
    grafo.adicionar_relacao(2, vec![1, 6]);
    let recomendacoes = grafo.recomendar_baseado_carrinho(vec![1, 2]);
    // Items already in the cart are never recommended.
    assert_eq!(recomendacoes, vec![5, 6]);
}

#[test]
fn test_recomendar_para_carrinho_limite() {
    let mut grafo = GrafoRecomendacao::new();
    grafo.adicionar_relacao(1, vec![4, 5, 6]);
    let limitado = grafo.recomendar_para_carrinho(&vec![1], 2);
    assert_eq!(limitado, vec![4, 5]);
    let todos = grafo.recomendar_para_carrinho(&vec![1], 10);
    assert_eq!(todos, vec![4, 5, 6]);
}
