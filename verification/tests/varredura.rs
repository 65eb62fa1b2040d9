use cargo_listagem::caminho::Caminho;
use cargo_listagem::varredura::so_diretorios;
use cargo_listagem::varredura::todos_diretorios_fontes;
use cargo_listagem::varredura::Entrada;
use cargo_listagem::varredura::Leitura;
use cargo_listagem::varredura::Tipo;
use cargo_listagem::varredura::Varredura;

fn caminho(partes: &[&str]) -> Caminho {
    Caminho { raiz: "/".to_string(), partes: partes.iter().map(|s| s.to_string()).collect() }
}

fn entrada(nome: &str, tipo: Tipo) -> Entrada {
    Entrada { nome: nome.to_string(), tipo }
}

fn leitura_de(raiz: &Caminho, pedido: &Caminho) -> Leitura {
    let dir = Tipo::Diretorio;
    if pedido == raiz {
        Leitura::Entradas(vec![
            entrada("index-a", dir),
            entrada(".package-cache", Tipo::Arquivo),
            entrada("atalho", Tipo::Linque),
            entrada("index-b", dir),
        ])
    } else if *pedido == raiz.junta("index-a") {
        Leitura::Entradas(vec![
            entrada("serde-1.0.193", dir),
            entrada("LEIAME", Tipo::Arquivo),
            entrada("toml-0.8.8", dir),
            entrada("velho-0.1.0", Tipo::Linque),
            entrada("tubo", Tipo::Outro),
        ])
    } else if *pedido == raiz.junta("index-b") {
        Leitura::Entradas(vec![entrada("serde-1.0.188", dir)])
    } else {
        Leitura::Falha
    }
}

fn varre(raiz: &Caminho, falha_em: Option<&Caminho>) -> Result<Vec<Caminho>, Caminho> {
    let mut varredura = todos_diretorios_fontes(raiz.copia());
    let mut leituras = 0;
    loop {
        let pedido = match varredura.pedido() {
            Some(pedido) => pedido.copia(),
            None => break,
        };
        let leitura = if falha_em == Some(&pedido) {
            Leitura::Falha
        } else {
            leitura_de(raiz, &pedido)
        };
        varredura = varredura.recebe(&leitura);
        leituras += 1;
        assert!(leituras <= 3);
    }
    varredura.resultado().unwrap()
}

#[test]
fn verificando_se_filtra_fontes_apenas() {
    let raiz = caminho(&["home", "eu", ".cargo", "registry", "src"]);
    let possiveis_sources = varre(&raiz, None);

    for path in possiveis_sources.unwrap() {
        println!("{:?}", path);
        assert_eq!(path.partes.len(), raiz.partes.len() + 2);
        let nome = path.nome_base().unwrap();
        assert!(nome.contains('-'));
        assert!(nome != "velho-0.1.0");
    }
}

#[test]
fn varredura_acha_o_segundo_nivel() {
    let raiz = caminho(&["src"]);
    assert_eq!(
        varre(&raiz, None),
        Ok(vec![
            caminho(&["src", "index-a", "serde-1.0.193"]),
            caminho(&["src", "index-a", "toml-0.8.8"]),
            caminho(&["src", "index-b", "serde-1.0.188"]),
        ])
    );
}

#[test]
fn raiz_ilegivel_aborta() {
    let raiz = caminho(&["src"]);
    assert_eq!(varre(&raiz, Some(&raiz)), Err(caminho(&["src"])));
}

#[test]
fn ramo_ilegivel_aborta_sem_resultado_parcial() {
    let raiz = caminho(&["src"]);
    assert_eq!(varre(&raiz, Some(&raiz.junta("index-b"))), Err(caminho(&["src", "index-b"])));
    assert_eq!(varre(&raiz, Some(&raiz.junta("index-a"))), Err(caminho(&["src", "index-a"])));
}

#[test]
fn raiz_vazia_termina_sem_fontes() {
    let varredura = todos_diretorios_fontes(caminho(&["src"]));
    assert_eq!(varredura.pedido(), Some(&caminho(&["src"])));
    let varredura = varredura.recebe(&Leitura::Entradas(Vec::new()));
    assert_eq!(varredura.pedido(), None);
    assert_eq!(varredura.resultado(), Some(Ok(Vec::new())));
}

#[test]
fn varredura_em_curso_nao_tem_resultado() {
    let raiz = caminho(&["src"]);
    assert_eq!(todos_diretorios_fontes(raiz.copia()).resultado(), None);
    let varredura = todos_diretorios_fontes(raiz.copia()).recebe(&leitura_de(&raiz, &raiz));
    assert_eq!(varredura.pedido(), Some(&caminho(&["src", "index-a"])));
    assert_eq!(varredura.resultado(), None);
}

#[test]
fn varredura_terminada_ignora_leituras() {
    let terminada = || Varredura::Ramos { pendentes: Vec::new(), fontes: vec![caminho(&["a"])] };
    assert_eq!(terminada().recebe(&Leitura::Falha), terminada());
    assert_eq!(terminada().recebe(&Leitura::Entradas(Vec::new())), terminada());
    let falhou = || Varredura::Falhou(caminho(&["x"]));
    assert_eq!(falhou().recebe(&Leitura::Entradas(Vec::new())), falhou());
    assert_eq!(falhou().pedido(), None);
}

#[test]
fn so_diretorios_passa_por_cima_do_resto() {
    let pai = caminho(&["p"]);
    let entradas = vec![
        entrada("a", Tipo::Arquivo),
        entrada("b", Tipo::Diretorio),
        entrada("c", Tipo::Linque),
        entrada("d", Tipo::Outro),
        entrada("e", Tipo::Diretorio),
    ];
    assert_eq!(so_diretorios(&pai, &entradas), vec![caminho(&["p", "b"]), caminho(&["p", "e"])]);
    assert_eq!(so_diretorios(&pai, &Vec::new()), Vec::<Caminho>::new());
}
