use megastore_search::cache::CacheBusca;

#[test]
fn test_ttl_fresco_e_expirado() {
    let mut cache = CacheBusca::new(10, 1000);
    cache.inserir_em("q".to_string(), vec![1, 2, 3], 0);
    assert_eq!(cache.obter_em("q", 0), Some(vec![1, 2, 3]));
    assert_eq!(cache.obter_em("q", 999), Some(vec![1, 2, 3]));
    assert_eq!(cache.estatisticas(), 1);

    assert_eq!(cache.obter_em("q", 1000), None);
    assert_eq!(cache.estatisticas(), 0);
}

#[test]
fn test_lru_sem_acesso() {
    let mut cache = CacheBusca::new(2, u64::MAX);
    cache.inserir_em("a".to_string(), vec![1], 0);
    cache.inserir_em("b".to_string(), vec![2], 1);
    cache.inserir_em("c".to_string(), vec![3], 2);
    assert_eq!(cache.estatisticas(), 2);
    assert_eq!(cache.obter_em("a", 3), None);
    assert_eq!(cache.obter_em("b", 3), Some(vec![2]));
    assert_eq!(cache.obter_em("c", 3), Some(vec![3]));
}

#[test]
fn test_lru_com_acesso() {
    let mut cache = CacheBusca::new(2, u64::MAX);
    cache.inserir_em("a".to_string(), vec![1], 0);
    cache.inserir_em("b".to_string(), vec![2], 1);
    assert_eq!(cache.obter_em("a", 2), Some(vec![1]));
    cache.inserir_em("c".to_string(), vec![3], 3);
    assert_eq!(cache.obter_em("b", 4), None);
    assert_eq!(cache.obter_em("a", 4), Some(vec![1]));
    assert_eq!(cache.obter_em("c", 4), Some(vec![3]));
}

#[test]
fn test_sobrescrita_conta_como_uso() {
    let mut cache = CacheBusca::new(2, u64::MAX);
    cache.inserir_em("a".to_string(), vec![1], 0);
    cache.inserir_em("b".to_string(), vec![2], 1);
    // Overwriting `a` refreshes it, so the next eviction takes `b`.
    cache.inserir_em("a".to_string(), vec![9], 2);
    cache.inserir_em("c".to_string(), vec![3], 3);
    assert_eq!(cache.obter_em("b", 4), None);
    assert_eq!(cache.obter_em("a", 4), Some(vec![9]));
    assert_eq!(cache.estatisticas(), 2);
}

#[test]
fn test_limpar() {
    let mut cache = CacheBusca::new(5, u64::MAX);
    cache.inserir_em("a".to_string(), vec![1], 0);
    cache.inserir_em("b".to_string(), vec![2], 0);
    assert_eq!(cache.estatisticas(), 2);
    cache.limpar();
    assert_eq!(cache.estatisticas(), 0);
    assert_eq!(cache.obter_em("a", 1), None);
}

#[test]
fn test_relogio_real() {
    let mut cache = CacheBusca::new(4, u64::MAX);
    cache.inserir("q".to_string(), vec![7, 8]);
    assert_eq!(cache.obter("q"), Some(vec![7, 8]));
    assert_eq!(cache.obter("outra"), None);
}
