use cargo_listagem::fontes::identificando_fonte;
use cargo_listagem::fontes::nomes_dos_diretorios;
use cargo_listagem::fontes::organizando_fontes_e_suas_versoes;
use cargo_listagem::fontes::ErroFonte;
use cargo_listagem::caminho::Caminho;

fn nomes(lista: &[&str]) -> Vec<String> {
    lista.iter().map(|s| s.to_string()).collect()
}

fn amostra() -> Vec<String> {
    nomes(&[
        "serde-1.0.193",
        "serde_json-1.0.108",
        "serde-1.0.188",
        "os_info-3.7.0",
        "proc-macro2-1.0.70",
        "serde-1.0.193",
    ])
}

#[test]
fn separacao_perfeita_das_fontes() {
    for nome_do_diretorio in amostra() {
        let (nome, versao) = identificando_fonte(&nome_do_diretorio).unwrap();
        println!(
            "'{}'\nEntão após aplicado a função =>
            \r\tnome: {nome}
            \r\tversão: {versao}
            ",
            nome_do_diretorio,
        );
    }

    assert!(true);
}

#[test]
fn informacao_compilada_nomes_e_versoes() {
    let pares = organizando_fontes_e_suas_versoes(&amostra()).unwrap().unwrap().desfaz();
    for entrada in pares {
        println!("{:?}", entrada);
    }

    assert!(true);
}

#[test]
fn separa_no_ultimo_traco() {
    assert_eq!(identificando_fonte("serde-1.0.193"), Ok(("serde", "1.0.193")));
    assert_eq!(identificando_fonte("proc-macro2-1.0.70"), Ok(("proc-macro2", "1.0.70")));
    assert_eq!(identificando_fonte("a-b-c-d"), Ok(("a-b-c", "d")));
}

#[test]
fn separa_com_partes_vazias() {
    assert_eq!(identificando_fonte("-"), Ok(("", "")));
    assert_eq!(identificando_fonte("nome-"), Ok(("nome", "")));
    assert_eq!(identificando_fonte("-1.0"), Ok(("", "1.0")));
}

#[test]
fn separa_texto_fora_do_ascii() {
    assert_eq!(identificando_fonte("ação-1.0"), Ok(("ação", "1.0")));
    assert_eq!(identificando_fonte("pão-de-ló-0.1.ç"), Ok(("pão-de-ló", "0.1.ç")));
}

#[test]
fn nome_sem_traco_e_malformado() {
    assert_eq!(identificando_fonte("semversao"), Err(ErroFonte::NomeMalformado));
    assert_eq!(identificando_fonte(""), Err(ErroFonte::NomeMalformado));
    assert_eq!(identificando_fonte("a_b.c"), Err(ErroFonte::NomeMalformado));
}

#[test]
fn separar_e_reunir_devolve_o_nome() {
    for (nome, versao) in [("foo", "1.0"), ("a-b", "2"), ("", ""), ("x-", "0.0.1")] {
        let unido = format!("{}-{}", nome, versao);
        assert_eq!(identificando_fonte(&unido), Ok((nome, versao)));
    }
    for inteiro in ["foo-1.0", "a-b-c", "-", "--"] {
        let (nome, versao) = identificando_fonte(inteiro).unwrap();
        assert_eq!(format!("{}-{}", nome, versao), inteiro);
        assert!(!versao.contains('-'));
    }
}

#[test]
fn lista_vazia_nao_da_registro() {
    let achado = organizando_fontes_e_suas_versoes(&Vec::new());
    assert!(matches!(achado, Ok(None)));
}

#[test]
fn diretorio_repetido_conta_uma_vez() {
    let pacote = organizando_fontes_e_suas_versoes(&nomes(&["foo-1.0", "foo-1.0"]))
        .unwrap()
        .unwrap();
    assert_eq!(pacote.len(), 1);
    assert_eq!(pacote.versoes("foo"), Some(&nomes(&["1.0"])));
}

#[test]
fn agrega_versoes_por_nome() {
    let pacote = organizando_fontes_e_suas_versoes(&nomes(&["foo-1.0", "foo-2.0", "bar-0.1"]))
        .unwrap()
        .unwrap();
    assert_eq!(pacote.len(), 2);
    assert!(!pacote.is_empty());
    assert_eq!(pacote.versoes("foo"), Some(&nomes(&["1.0", "2.0"])));
    assert_eq!(pacote.versoes("bar"), Some(&nomes(&["0.1"])));
    assert_eq!(pacote.versoes("baz"), None);
    assert_eq!(pacote.versoes("fo"), None);
}

#[test]
fn versoes_ficam_na_ordem_em_que_vieram() {
    let pacote = organizando_fontes_e_suas_versoes(&amostra()).unwrap().unwrap();
    assert_eq!(pacote.len(), 4);
    assert_eq!(pacote.versoes("serde"), Some(&nomes(&["1.0.193", "1.0.188"])));
    assert_eq!(pacote.versoes("serde_json"), Some(&nomes(&["1.0.108"])));
    assert_eq!(pacote.versoes("proc-macro2"), Some(&nomes(&["1.0.70"])));
}

#[test]
fn nomes_nao_sao_normalizados() {
    let pacote = organizando_fontes_e_suas_versoes(&nomes(&["Foo-1", "foo-1", "foo -1"]))
        .unwrap()
        .unwrap();
    assert_eq!(pacote.len(), 3);
}

#[test]
fn um_nome_malformado_invalida_a_lista() {
    let achado = organizando_fontes_e_suas_versoes(&nomes(&["foo-1.0", "quebrado", "bar-2"]));
    assert_eq!(achado.err(), Some(ErroFonte::NomeMalformado));
}

#[test]
fn desfaz_entrega_cada_pacote_uma_vez() {
    let pacote = organizando_fontes_e_suas_versoes(&nomes(&["b-1", "a-1", "b-2", "a-1"]))
        .unwrap()
        .unwrap();
    let mut pares = pacote.desfaz();
    pares.sort();
    assert_eq!(
        pares,
        vec![("a".to_string(), nomes(&["1"])), ("b".to_string(), nomes(&["1", "2"]))]
    );
}

#[test]
fn nomes_base_dos_diretorios() {
    let raiz = Caminho::novo("/");
    let registro = raiz.junta("home").junta("registry").junta("src");
    let fontes = vec![
        registro.junta("index-1").junta("serde-1.0.193"),
        registro.junta("index-1").junta("toml-0.8.8"),
    ];
    assert_eq!(nomes_dos_diretorios(&fontes), Ok(nomes(&["serde-1.0.193", "toml-0.8.8"])));
    assert_eq!(nomes_dos_diretorios(&Vec::new()), Ok(Vec::new()));
}

#[test]
fn diretorio_sem_nome_invalida_a_lista() {
    let fontes = vec![Caminho::novo("/").junta("a-1"), Caminho::novo("/")];
    assert_eq!(nomes_dos_diretorios(&fontes), Err(ErroFonte::NomeMalformado));
}

#[test]
fn erro_dito_em_palavras() {
    assert_eq!(ErroFonte::NomeMalformado.mensagem(), "nome de diretório de pacote malformado");
}
