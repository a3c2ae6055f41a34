use megastore_search::metricas::MetricasBusca;

#[test]
fn test_registro_metricas() {
    let mut metricas = MetricasBusca::new();

    metricas.registrar_consulta(5, 100);
    assert_eq!(metricas.consultas_realizadas, 1);
    assert_eq!(metricas.resultados_encontrados, 5);
    assert_eq!(metricas.tempo_resposta, 100);
}

#[test]
fn test_multiplas_metricas() {
    let mut metricas = MetricasBusca::new();

    metricas.registrar_consulta(1, 50);
    metricas.registrar_consulta(2, 75);

    assert_eq!(metricas.consultas_realizadas, 2);
    assert_eq!(metricas.resultados_encontrados, 2);
}
