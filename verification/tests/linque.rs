use cargo_listagem::caminho::Caminho;
use cargo_listagem::linque::avanca;
use cargo_listagem::linque::classifica;
use cargo_listagem::linque::computa_caminho;
use cargo_listagem::linque::cria_linques_locais;
use cargo_listagem::linque::cria_linques_no_repositorio;
use cargo_listagem::linque::linca_executaveis;
use cargo_listagem::linque::relata;
use cargo_listagem::linque::Alvo;
use cargo_listagem::linque::Classe;
use cargo_listagem::linque::Configuracao;
use cargo_listagem::linque::Desfecho;
use cargo_listagem::linque::Etapa;
use cargo_listagem::linque::Linque;
use cargo_listagem::linque::Modo;
use cargo_listagem::linque::Relato;
use cargo_listagem::linque::Resposta;

fn caminho(raiz: &str, partes: &[&str]) -> Caminho {
    Caminho { raiz: raiz.to_string(), partes: partes.iter().map(|s| s.to_string()).collect() }
}

fn executavel(modo: &str) -> Caminho {
    caminho("/", &["home", "eu", "projeto", "target", modo, "cargo-listagem.exe"])
}

fn elo() -> Linque {
    Linque { fonte: executavel("release"), destino: caminho("/", &["links", "pacotes-externos"]) }
}

fn copia(l: &Linque) -> Linque {
    Linque { fonte: l.fonte.copia(), destino: l.destino.copia() }
}

fn externo(linque: Linque) -> Etapa {
    Etapa::Existencia { linque, alvo: Alvo::Repositorio }
}

fn alvos() -> [Alvo; 3] {
    [Alvo::Local(Modo::Debug), Alvo::Local(Modo::Release), Alvo::Repositorio]
}

fn respostas() -> Vec<Resposta> {
    vec![
        Resposta::Sim,
        Resposta::Nao,
        Resposta::Alvo(caminho("/", &["outro"])),
        Resposta::Feito,
        Resposta::Falha(Classe::JaExiste),
        Resposta::Falha(Classe::Outra),
    ]
}

fn repete(r: &Resposta) -> Resposta {
    match r {
        Resposta::Sim => Resposta::Sim,
        Resposta::Nao => Resposta::Nao,
        Resposta::Alvo(c) => Resposta::Alvo(c.copia()),
        Resposta::Feito => Resposta::Feito,
        Resposta::Falha(k) => Resposta::Falha(*k),
    }
}

#[test]
fn computa_a_partir_do_executavel() {
    assert_eq!(
        computa_caminho(&executavel("debug"), "pacotes-externos"),
        caminho("/", &["home", "eu", "projeto", "pacotes-externos"])
    );
    let computado = computa_caminho(&executavel("debug"), "target/debug/x");
    assert_eq!(computado, caminho("/", &["home", "eu", "projeto", "target", "debug", "x"]));
    assert!(computado.tem_parte("debug"));
    assert!(!computado.tem_parte("release"));
}

#[test]
fn computa_de_um_caminho_curto() {
    assert_eq!(computa_caminho(&caminho("/", &["a", "b"]), "x"), caminho("/", &["x"]));
    assert_eq!(computa_caminho(&caminho("/", &[]), "x"), caminho("/", &["x"]));
    assert_eq!(computa_caminho(&caminho("", &["a", "b", "c", "d"]), "x"), caminho("", &["a", "x"]));
}

#[test]
fn linque_local_de_debug() {
    let etapa = cria_linques_locais(&executavel("debug"), "pacotes-externos", Modo::Debug);
    assert_eq!(
        etapa,
        Etapa::Existencia {
            linque: Linque {
                fonte: caminho(
                    "/",
                    &["home", "eu", "projeto", "target", "debug", "cargo-listagem.exe"]
                ),
                destino: caminho("/", &["home", "eu", "projeto", "pacotes-externos-debug"]),
            },
            alvo: Alvo::Local(Modo::Debug),
        }
    );
}

#[test]
fn linque_local_de_release() {
    let etapa = cria_linques_locais(&executavel("release"), "pacotes-externos", Modo::Release);
    assert_eq!(
        etapa,
        Etapa::Existencia {
            linque: Linque {
                fonte: caminho(
                    "/",
                    &["home", "eu", "projeto", "target", "release", "cargo-listagem.exe"]
                ),
                destino: caminho("/", &["home", "eu", "projeto", "pacotes-externos"]),
            },
            alvo: Alvo::Local(Modo::Release),
        }
    );
}

#[test]
fn linque_local_criado() {
    let inicio = cria_linques_locais(&executavel("debug"), "nome", Modo::Debug);
    let etapa = avanca(inicio, Resposta::Nao);
    assert!(matches!(etapa, Etapa::Criacao { alvo: Alvo::Local(Modo::Debug), .. }));
    assert_eq!(
        avanca(etapa, Resposta::Feito),
        Etapa::Fim(Desfecho::Criado(caminho("/", &["home", "eu", "projeto", "nome-debug"])))
    );
}

#[test]
fn linque_local_nao_pede_release() {
    let inicio = cria_linques_locais(&executavel("debug"), "nome", Modo::Debug);
    assert!(matches!(avanca(inicio, Resposta::Nao), Etapa::Criacao { .. }));
}

#[test]
fn linque_local_que_ja_existe() {
    let inicio = cria_linques_locais(&executavel("release"), "nome", Modo::Release);
    assert_eq!(avanca(inicio, Resposta::Sim), Etapa::Fim(Desfecho::Falhou(Classe::JaExiste)));
}

#[test]
fn destino_que_surge_na_criacao() {
    for alvo in alvos() {
        assert_eq!(
            avanca(Etapa::Criacao { linque: elo(), alvo }, Resposta::Falha(Classe::JaExiste)),
            Etapa::Fim(Desfecho::Falhou(Classe::JaExiste))
        );
    }
}

#[test]
fn linque_externo_comeca_pelo_destino() {
    let config = Configuracao::Diretorio(caminho("/", &["links"]));
    assert_eq!(
        cria_linques_no_repositorio(&executavel("release"), &config, "pacotes-externos"),
        externo(elo())
    );
}

#[test]
fn linque_externo_sem_configuracao() {
    let exe = executavel("release");
    assert_eq!(
        cria_linques_no_repositorio(&exe, &Configuracao::Ausente, "nome"),
        Etapa::Fim(Desfecho::Falhou(Classe::EntradaInvalida))
    );
    assert_eq!(
        cria_linques_no_repositorio(&exe, &Configuracao::NaoTextual, "nome"),
        Etapa::Fim(Desfecho::Falhou(Classe::DadoInvalido))
    );
}

#[test]
fn destino_existente_nao_cria_nada() {
    for alvo in alvos() {
        let mut etapa = avanca(Etapa::Existencia { linque: elo(), alvo }, Resposta::Sim);
        assert_eq!(etapa, Etapa::Fim(Desfecho::Falhou(Classe::JaExiste)));
        for r in respostas() {
            etapa = avanca(etapa, r);
            assert_eq!(etapa, Etapa::Fim(Desfecho::Falhou(Classe::JaExiste)));
        }
    }
}

#[test]
fn sem_release_nao_e_suportado() {
    let l = Linque { fonte: executavel("debug"), destino: caminho("/", &["links", "nome"]) };
    assert_eq!(
        avanca(externo(copia(&l)), Resposta::Nao),
        Etapa::Fim(Desfecho::Falhou(Classe::NaoSuportado))
    );
    for primeira in respostas() {
        let mut etapa = avanca(externo(copia(&l)), primeira);
        assert!(!matches!(etapa, Etapa::Criacao { .. }));
        for r in respostas() {
            etapa = avanca(etapa, r);
            assert!(!matches!(etapa, Etapa::Criacao { .. }));
        }
    }
}

#[test]
fn release_no_nome_do_arquivo_nao_basta_para_o_debug() {
    let fonte = caminho("/", &["proj", "target", "debug", "release.exe"]);
    let l = Linque { fonte, destino: caminho("/", &["links", "nome"]) };
    assert_eq!(
        avanca(externo(l), Resposta::Nao),
        Etapa::Fim(Desfecho::Falhou(Classe::NaoSuportado))
    );
}

#[test]
fn linque_externo_do_comeco_ao_fim() {
    let etapa = avanca(externo(elo()), Resposta::Nao);
    assert_eq!(etapa, Etapa::Natureza(elo()));
    let etapa = avanca(etapa, Resposta::Nao);
    assert_eq!(etapa, Etapa::Criacao { linque: elo(), alvo: Alvo::Repositorio });
    let etapa = avanca(etapa, Resposta::Feito);
    assert_eq!(etapa, Etapa::Conferencia(caminho("/", &["links", "pacotes-externos"])));
    let etapa = avanca(etapa, Resposta::Sim);
    assert_eq!(
        etapa,
        Etapa::Fim(Desfecho::Criado(caminho("/", &["links", "pacotes-externos"])))
    );
}

#[test]
fn executavel_que_e_linque_e_resolvido() {
    let etapa = avanca(Etapa::Natureza(elo()), Resposta::Sim);
    assert_eq!(etapa, Etapa::Resolucao(elo()));
    let alvo = caminho("/", &["opt", "bin", "real"]);
    let resolvido =
        || Linque { fonte: alvo.copia(), destino: caminho("/", &["links", "pacotes-externos"]) };
    let etapa = avanca(etapa, Resposta::Alvo(alvo.copia()));
    assert_eq!(etapa, Etapa::Natureza(resolvido()));
    let etapa = avanca(etapa, Resposta::Nao);
    assert_eq!(etapa, Etapa::Criacao { linque: resolvido(), alvo: Alvo::Repositorio });
}

#[test]
fn cadeia_de_linques_e_seguida_ate_o_fim() {
    let destino = || caminho("/", &["links", "pacotes-externos"]);
    let mut etapa = avanca(externo(elo()), Resposta::Nao);
    for salto in ["primeiro", "segundo", "terceiro"] {
        assert!(matches!(etapa, Etapa::Natureza(_)));
        etapa = avanca(etapa, Resposta::Sim);
        assert!(matches!(etapa, Etapa::Resolucao(_)));
        etapa = avanca(etapa, Resposta::Alvo(caminho("/", &["opt", salto])));
        assert_eq!(
            etapa,
            Etapa::Natureza(Linque { fonte: caminho("/", &["opt", salto]), destino: destino() })
        );
    }
    assert_eq!(
        avanca(etapa, Resposta::Nao),
        Etapa::Criacao {
            linque: Linque { fonte: caminho("/", &["opt", "terceiro"]), destino: destino() },
            alvo: Alvo::Repositorio,
        }
    );
}

#[test]
fn alvo_sem_ancora_parte_do_diretorio_do_linque() {
    let etapa = avanca(Etapa::Resolucao(elo()), Resposta::Alvo(caminho("", &["..", "real"])));
    assert_eq!(
        etapa,
        Etapa::Natureza(Linque {
            fonte: caminho("/", &["home", "eu", "projeto", "target", "release", "..", "real"]),
            destino: caminho("/", &["links", "pacotes-externos"]),
        })
    );
}

#[test]
fn resolucao_que_falha() {
    assert_eq!(
        avanca(Etapa::Resolucao(elo()), Resposta::Falha(Classe::Outra)),
        Etapa::Fim(Desfecho::Falhou(Classe::Outra))
    );
    assert_eq!(
        avanca(Etapa::Resolucao(elo()), Resposta::Falha(Classe::EntradaInvalida)),
        Etapa::Fim(Desfecho::Falhou(Classe::Outra))
    );
    assert_eq!(
        avanca(Etapa::Resolucao(elo()), Resposta::Falha(Classe::DadoInvalido)),
        Etapa::Fim(Desfecho::Falhou(Classe::Outra))
    );
}

#[test]
fn criacao_que_falha() {
    let casos = [
        (Classe::JaExiste, Classe::JaExiste),
        (Classe::NaoSuportado, Classe::NaoSuportado),
        (Classe::EntradaInvalida, Classe::Outra),
        (Classe::DadoInvalido, Classe::Outra),
        (Classe::Outra, Classe::Outra),
    ];
    for alvo in alvos() {
        for (veio, fica) in casos {
            assert_eq!(
                avanca(Etapa::Criacao { linque: elo(), alvo }, Resposta::Falha(veio)),
                Etapa::Fim(Desfecho::Falhou(fica))
            );
        }
    }
}

#[test]
fn falha_inesperada_do_disco_encerra_a_execucao() {
    for veio in [Classe::EntradaInvalida, Classe::DadoInvalido, Classe::Outra] {
        for alvo in alvos() {
            let fim = avanca(Etapa::Criacao { linque: elo(), alvo }, Resposta::Falha(veio));
            match fim {
                Etapa::Fim(desfecho) => {
                    assert_eq!(relata(alvo, &desfecho), Relato::Aborta(Classe::Outra))
                }
                outra => panic!("{:?}", outra),
            }
        }
    }
    let fim = avanca(
        Etapa::Criacao { linque: elo(), alvo: Alvo::Local(Modo::Debug) },
        Resposta::Falha(Classe::NaoSuportado),
    );
    match fim {
        Etapa::Fim(desfecho) => assert_eq!(
            relata(Alvo::Local(Modo::Debug), &desfecho),
            Relato::Aborta(Classe::NaoSuportado)
        ),
        outra => panic!("{:?}", outra),
    }
}

#[test]
fn classes_do_disco() {
    assert_eq!(classifica(Classe::JaExiste), Classe::JaExiste);
    assert_eq!(classifica(Classe::NaoSuportado), Classe::NaoSuportado);
    assert_eq!(classifica(Classe::EntradaInvalida), Classe::Outra);
    assert_eq!(classifica(Classe::DadoInvalido), Classe::Outra);
    assert_eq!(classifica(Classe::Outra), Classe::Outra);
}

#[test]
fn destino_que_nao_aparece_e_falha() {
    assert_eq!(
        avanca(Etapa::Conferencia(caminho("/", &["links", "nome"])), Resposta::Nao),
        Etapa::Fim(Desfecho::Falhou(Classe::Outra))
    );
}

#[test]
fn resposta_que_nao_cabe_e_ignorada() {
    let casos: Vec<(fn() -> Etapa, Vec<usize>)> = vec![
        (|| externo(elo()), vec![2, 3, 4, 5]),
        (|| Etapa::Existencia { linque: elo(), alvo: Alvo::Local(Modo::Debug) }, vec![2, 3, 4, 5]),
        (|| Etapa::Natureza(elo()), vec![2, 3, 4, 5]),
        (|| Etapa::Resolucao(elo()), vec![0, 1, 3]),
        (|| Etapa::Criacao { linque: elo(), alvo: Alvo::Local(Modo::Release) }, vec![0, 1, 2]),
        (|| Etapa::Conferencia(caminho("/", &["x"])), vec![2, 3, 4, 5]),
        (|| Etapa::Fim(Desfecho::Criado(caminho("/", &["x"]))), vec![0, 1, 2, 3, 4, 5]),
    ];
    let todas = respostas();
    for (etapa, indices) in casos {
        for i in indices {
            assert_eq!(avanca(etapa(), repete(&todas[i])), etapa());
        }
    }
}

#[test]
fn plano_dos_dois_linques() {
    let exe = executavel("release");
    let config = Configuracao::Diretorio(caminho("/", &["links"]));
    let plano = linca_executaveis("pacotes-externos", Modo::Release, &exe, &config);
    assert_eq!(plano.local, cria_linques_locais(&exe, "pacotes-externos", Modo::Release));
    assert_eq!(plano.externo, externo(elo()));
}

#[test]
fn relatos_do_linque_local() {
    let feito = Desfecho::Criado(caminho("/", &["x"]));
    let existe = Desfecho::Falhou(Classe::JaExiste);
    for modo in [Modo::Debug, Modo::Release] {
        assert_eq!(
            relata(Alvo::Local(modo), &feito),
            Relato::Segue("O linque local foi criado com sucesso.".to_string())
        );
    }
    assert_eq!(
        relata(Alvo::Local(Modo::Debug), &existe),
        Relato::Segue("Já existe um linque local do 'modo debug'.".to_string())
    );
    assert_eq!(
        relata(Alvo::Local(Modo::Release), &existe),
        Relato::Segue("Já existe um linque local.".to_string())
    );
    for classe in
        [Classe::NaoSuportado, Classe::EntradaInvalida, Classe::DadoInvalido, Classe::Outra]
    {
        for modo in [Modo::Debug, Modo::Release] {
            assert_eq!(
                relata(Alvo::Local(modo), &Desfecho::Falhou(classe)),
                Relato::Aborta(classe)
            );
        }
    }
}

#[test]
fn relatos_do_linque_externo() {
    let alvo = Alvo::Repositorio;
    assert_eq!(
        relata(alvo, &Desfecho::Criado(caminho("/", &["x"]))),
        Relato::Segue("Linque criado com sucesso em $LINKS.".to_string())
    );
    assert_eq!(
        relata(alvo, &Desfecho::Falhou(Classe::JaExiste)),
        Relato::Segue("Já existe um linque em $LINKS.".to_string())
    );
    assert_eq!(
        relata(alvo, &Desfecho::Falhou(Classe::NaoSuportado)),
        Relato::Segue("Sistema ou ambiente não suportado.".to_string())
    );
    assert_eq!(
        relata(alvo, &Desfecho::Falhou(Classe::EntradaInvalida)),
        Relato::Segue("A variável $LINKS não está definida.".to_string())
    );
    assert_eq!(
        relata(alvo, &Desfecho::Falhou(Classe::DadoInvalido)),
        Relato::Segue("A variável $LINKS não guarda um texto válido.".to_string())
    );
    assert_eq!(relata(alvo, &Desfecho::Falhou(Classe::Outra)), Relato::Aborta(Classe::Outra));
}

#[test]
fn nome_de_linque_com_barras_desce_por_cada_parte() {
    let config = Configuracao::Diretorio(caminho("/", &["links"]));
    assert_eq!(
        cria_linques_no_repositorio(&executavel("release"), &config, "meus/pacotes"),
        externo(Linque {
            fonte: executavel("release"),
            destino: caminho("/", &["links", "meus", "pacotes"]),
        })
    );
}
