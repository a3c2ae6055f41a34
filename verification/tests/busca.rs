use megastore_search::motor::MotorBusca;
use megastore_search::produto::Produto;

#[test]
fn test_adicionar_buscar_produto() {
    let mut motor = MotorBusca::new(100);
    let produto = Produto::new(
        1,
        "Test Product".to_string(),
        "Test Brand".to_string(),
        "Test Category".to_string(),
        10000,
        "Test Description".to_string(),
    );

    assert!(motor.adicionar_produto(produto).is_ok());

    let resultados = motor.buscar("test");
    assert_eq!(resultados.len(), 1);
    assert_eq!(resultados[0].nome, "Test Product");
}

#[test]
fn test_capacidade_maxima() {
    let mut motor = MotorBusca::new(1);
    let produto1 = Produto::new(
        1,
        "P1".to_string(),
        "B1".to_string(),
        "C1".to_string(),
        10000,
        "D1".to_string(),
    );
    let produto2 = Produto::new(
        2,
        "P2".to_string(),
        "B2".to_string(),
        "C2".to_string(),
        20000,
        "D2".to_string(),
    );

    assert!(motor.adicionar_produto(produto1).is_ok());
    assert!(motor.adicionar_produto(produto2).is_err());
}

#[test]
fn test_capacidade_erro_e_contagem() {
    let mut motor = MotorBusca::new(1);
    let p1 = Produto::new(1, "A".to_string(), "B".to_string(), "C".to_string(), 1, "D".to_string());
    let p2 = Produto::new(2, "E".to_string(), "F".to_string(), "G".to_string(), 2, "H".to_string());
    assert!(motor.adicionar_produto(p1).is_ok());
    let erro = motor.adicionar_produto(p2);
    assert_eq!(erro, Err("Capacidade máxima atingida".to_string()));
    assert_eq!(motor.total_produtos(), 1);
}

fn catalogo() -> MotorBusca {
    let mut motor = MotorBusca::new(1000);
    let produtos = vec![
        Produto::new(
            1,
            "Smartphone Samsung".to_string(),
            "Samsung".to_string(),
            "Eletrônicos".to_string(),
            89999,
            "Smartphone Android com 128GB".to_string(),
        ),
        Produto::new(
            2,
            "iPhone 13".to_string(),
            "Apple".to_string(),
            "Eletrônicos".to_string(),
            129999,
            "Smartphone Apple com 256GB".to_string(),
        ),
        Produto::new(
            3,
            "Notebook Dell".to_string(),
            "Dell".to_string(),
            "Informática".to_string(),
            199999,
            "Notebook i7 16GB RAM".to_string(),
        ),
        Produto::new(
            4,
            "TV LED 55".to_string(),
            "LG".to_string(),
            "Eletrônicos".to_string(),
            149999,
            "TV Smart 4K 55 polegadas".to_string(),
        ),
        Produto::new(
            5,
            "Fone Bluetooth".to_string(),
            "Sony".to_string(),
            "Áudio".to_string(),
            19999,
            "Fone sem fio com cancelamento de ruído".to_string(),
        ),
    ];
    for produto in produtos {
        motor.adicionar_produto(produto).unwrap();
    }
    motor
}

#[test]
fn test_ponta_a_ponta() {
    let motor = catalogo();
    assert_eq!(motor.total_produtos(), 5);

    let eletronicos = motor.buscar("eletrônicos");
    let mut ids: Vec<u32> = eletronicos.iter().map(|p| p.id).collect();
    ids.sort();
    assert_eq!(ids, vec![1, 2, 4]);

    let categoria_dupla = {
        let mut m = MotorBusca::new(10);
        for p in motor.obter_todos_produtos() {
            if p.categoria == "Eletrônicos" && p.id != 4 {
                m.adicionar_produto(p).unwrap();
            }
        }
        m
    };
    let dois = categoria_dupla.buscar("eletrônicos");
    let mut ids2: Vec<u32> = dois.iter().map(|p| p.id).collect();
    ids2.sort();
    assert_eq!(ids2, vec![1, 2]);

    assert!(motor.buscar("inexistente").is_empty());
    assert!(motor.obter_produto_por_id(999).is_none());
    assert_eq!(motor.obter_produto_por_id(3).unwrap().nome, "Notebook Dell");
}

#[test]
fn test_todos_produtos() {
    let motor = catalogo();
    let todos = motor.obter_todos_produtos();
    assert_eq!(todos.len(), 5);
    assert_eq!(todos[0].id, 1);
    assert_eq!(todos[4].marca, "Sony");
}
