//! The symbolic links that point at the tool's own executable: which
//! links are wanted, in what steps each is made, and what is said of how
//! it went.
//!
//! Nothing here touches the disk. Each attempt is a chain of steps; a step
//! either names the one thing that has to be asked of, or done to, the
//! file system, or it is the end. Whoever drives the attempt does that one
//! thing and hands the answer to `avanca`.

use vstd::prelude::*;
use crate::caminho::Caminho;
use crate::caminho::Trilha;

verus! {

/// How the running executable was built.
#[derive(Clone, Copy, Debug, PartialEq, Eq, Structural)]
pub enum Modo {
    Debug,
    Release,
}

/// Which of the links an attempt is at.
#[derive(Clone, Copy, Debug, PartialEq, Eq, Structural)]
pub enum Alvo {
    /// The local link of a build mode.
    Local(Modo),
    /// The link in the shared directory.
    Repositorio,
}

/// The classes of failure that the attempts tell apart.
#[derive(Clone, Copy, Debug, PartialEq, Eq, Structural)]
pub enum Classe {
    /// The destination is there already.
    JaExiste,
    /// The executable is no release build, so it is not linked from the
    /// shared directory.
    NaoSuportado,
    /// The shared directory is not configured.
    EntradaInvalida,
    /// The configured value is no text.
    DadoInvalido,
    /// Any other failure.
    Outra,
}

/// The name of the executable file.
pub open spec fn nome_do_programa() -> Seq<char> {
    "cargo-listagem.exe"@
}

/// The part of a path that marks a release build.
pub open spec fn parte_release() -> Seq<char> {
    "release"@
}

/// The directory of the project, three levels above the executable: above
/// the file itself, the directory of its build mode and the build
/// directory.
pub open spec fn base_do_projeto(executavel: Trilha) -> Trilha {
    executavel.sobe().sobe().sobe()
}

/// One link as plain text: the path it points at and the path where it
/// stands.
pub struct Elo {
    pub fonte: Trilha,
    pub destino: Trilha,
}

/// One link to make: the path it points at and the path where it stands.
#[derive(Debug, PartialEq, Eq)]
pub struct Linque {
    pub fonte: Caminho,
    pub destino: Caminho,
}

impl View for Linque {
    type V = Elo;

    open spec fn view(&self) -> Elo {
        Elo { fonte: self.fonte@, destino: self.destino@ }
    }
}

/// What the configuration says of the shared directory of links.
#[derive(Debug, PartialEq, Eq)]
pub enum Configuracao {
    /// The directory it names.
    Diretorio(Caminho),
    /// Nothing: the value is not set.
    Ausente,
    /// A value that is no text.
    NaoTextual,
}

/// How an attempt ended, as plain text.
pub enum Fecho {
    Criado(Trilha),
    Falhou(Classe),
}

/// How an attempt ended: with the link made, at the path given, or with a
/// failure.
#[derive(Debug, PartialEq, Eq)]
pub enum Desfecho {
    Criado(Caminho),
    Falhou(Classe),
}

impl View for Desfecho {
    type V = Fecho;

    open spec fn view(&self) -> Fecho {
        match *self {
            Desfecho::Criado(c) => Fecho::Criado(c@),
            Desfecho::Falhou(k) => Fecho::Falhou(k),
        }
    }
}

/// A step of an attempt, as plain text.
pub enum Passo {
    Existencia { elo: Elo, alvo: Alvo },
    Natureza(Elo),
    Resolucao(Elo),
    Criacao { elo: Elo, alvo: Alvo },
    Conferencia(Trilha),
    Fim(Fecho),
}

/// A step of an attempt: what it waits for, or how it ended.
#[derive(Debug, PartialEq, Eq)]
pub enum Etapa {
    /// Asks whether the destination exists.
    Existencia { linque: Linque, alvo: Alvo },
    /// Asks whether the source is itself a symbolic link. Only the link in
    /// the shared directory asks this.
    Natureza(Linque),
    /// Asks what the source, a symbolic link, points at. The answer is
    /// asked about in its turn, so it need not be the end of a chain; a
    /// path without an anchor is taken from the directory of the link.
    Resolucao(Linque),
    /// Asks for the link to be made.
    Criacao { linque: Linque, alvo: Alvo },
    /// Asks whether the destination exists now that the link in the
    /// shared directory was made.
    Conferencia(Caminho),
    /// The attempt is over.
    Fim(Desfecho),
}

impl View for Etapa {
    type V = Passo;

    open spec fn view(&self) -> Passo {
        match *self {
            Etapa::Existencia { linque, alvo } => Passo::Existencia { elo: linque@, alvo },
            Etapa::Natureza(l) => Passo::Natureza(l@),
            Etapa::Resolucao(l) => Passo::Resolucao(l@),
            Etapa::Criacao { linque, alvo } => Passo::Criacao { elo: linque@, alvo },
            Etapa::Conferencia(c) => Passo::Conferencia(c@),
            Etapa::Fim(d) => Passo::Fim(d@),
        }
    }
}

/// An answer from the file system, as plain text.
pub enum Retorno {
    Sim,
    Nao,
    Alvo(Trilha),
    Feito,
    Falha(Classe),
}

/// An answer from the file system to what a step asked.
#[derive(Debug, PartialEq, Eq)]
pub enum Resposta {
    /// Yes, to a question.
    Sim,
    /// No, to a question.
    Nao,
    /// What the symbolic link points at.
    Alvo(Caminho),
    /// The link was made.
    Feito,
    /// What was asked for failed.
    Falha(Classe),
}

impl View for Resposta {
    type V = Retorno;

    open spec fn view(&self) -> Retorno {
        match *self {
            Resposta::Sim => Retorno::Sim,
            Resposta::Nao => Retorno::Nao,
            Resposta::Alvo(c) => Retorno::Alvo(c@),
            Resposta::Feito => Retorno::Feito,
            Resposta::Falha(k) => Retorno::Falha(k),
        }
    }
}

/// The class under which a failure of the file system ends an attempt.
/// Only a destination that exists and an unsupported operation are told
/// apart: every other failure is of the class that ends the run, also
/// where the file system calls it an invalid input or invalid data, which
/// as classes of their own are kept for the configuration.
pub open spec fn classe_do_disco(k: Classe) -> Classe {
    match k {
        Classe::JaExiste => Classe::JaExiste,
        Classe::NaoSuportado => Classe::NaoSuportado,
        _ => Classe::Outra,
    }
}

/// The class under which a failure of the file system ends an attempt.
pub fn classifica(k: Classe) -> (r: Classe)
    ensures
        r == classe_do_disco(k),
{
    match k {
        Classe::JaExiste => Classe::JaExiste,
        Classe::NaoSuportado => Classe::NaoSuportado,
        _ => Classe::Outra,
    }
}

/// The step that follows `passo` on the answer `retorno`. An answer that
/// does not fit what the step asked leaves the step as it is.
///
/// A destination that exists ends the attempt. Where it is free, the
/// local link is made at once. The link in the shared directory is made
/// only from a release build, and only from a source that is known to be
/// no link itself: what a link points at is looked at in its turn, so a
/// chain of links is followed to its end. Once made, that link is looked
/// for. A failure of the file system ends the attempt.
pub open spec fn seguinte(passo: Passo, retorno: Retorno) -> Passo {
    match (passo, retorno) {
        (Passo::Existencia { elo, alvo }, Retorno::Sim) => Passo::Fim(
            Fecho::Falhou(Classe::JaExiste),
        ),
        (Passo::Existencia { elo, alvo }, Retorno::Nao) => match alvo {
            Alvo::Local(_) => Passo::Criacao { elo, alvo },
            Alvo::Repositorio => if elo.fonte.partes.contains(parte_release()) {
                Passo::Natureza(elo)
            } else {
                Passo::Fim(Fecho::Falhou(Classe::NaoSuportado))
            },
        },
        (Passo::Natureza(elo), Retorno::Sim) => Passo::Resolucao(elo),
        (Passo::Natureza(elo), Retorno::Nao) => Passo::Criacao { elo, alvo: Alvo::Repositorio },
        (Passo::Resolucao(elo), Retorno::Alvo(alvo)) => Passo::Natureza(
            Elo { fonte: elo.fonte.aponta(alvo), destino: elo.destino },
        ),
        (Passo::Resolucao(elo), Retorno::Falha(k)) => Passo::Fim(
            Fecho::Falhou(classe_do_disco(k)),
        ),
        (Passo::Criacao { elo, alvo }, Retorno::Feito) => match alvo {
            Alvo::Local(_) => Passo::Fim(Fecho::Criado(elo.destino)),
            Alvo::Repositorio => Passo::Conferencia(elo.destino),
        },
        (Passo::Criacao { elo, alvo }, Retorno::Falha(k)) => Passo::Fim(
            Fecho::Falhou(classe_do_disco(k)),
        ),
        (Passo::Conferencia(destino), Retorno::Sim) => Passo::Fim(Fecho::Criado(destino)),
        (Passo::Conferencia(destino), Retorno::Nao) => Passo::Fim(Fecho::Falhou(Classe::Outra)),
        _ => passo,
    }
}

/// Takes an attempt one step on, by the answer to what it asked.
pub fn avanca(etapa: Etapa, resposta: Resposta) -> (r: Etapa)
    ensures
        r@ == seguinte(etapa@, resposta@),
{
    match etapa {
        Etapa::Existencia { linque, alvo } => match resposta {
            Resposta::Sim => Etapa::Fim(Desfecho::Falhou(Classe::JaExiste)),
            Resposta::Nao => match alvo {
                Alvo::Local(_) => Etapa::Criacao { linque, alvo },
                Alvo::Repositorio => {
                    if linque.fonte.tem_parte("release") {
                        Etapa::Natureza(linque)
                    } else {
                        Etapa::Fim(Desfecho::Falhou(Classe::NaoSuportado))
                    }
                },
            },
            _ => Etapa::Existencia { linque, alvo },
        },
        Etapa::Natureza(linque) => match resposta {
            Resposta::Sim => Etapa::Resolucao(linque),
            Resposta::Nao => Etapa::Criacao { linque, alvo: Alvo::Repositorio },
            _ => Etapa::Natureza(linque),
        },
        Etapa::Resolucao(linque) => match resposta {
            Resposta::Alvo(alvo) => Etapa::Natureza(
                Linque { fonte: linque.fonte.aponta(alvo), destino: linque.destino },
            ),
            Resposta::Falha(k) => Etapa::Fim(Desfecho::Falhou(classifica(k))),
            _ => Etapa::Resolucao(linque),
        },
        Etapa::Criacao { linque, alvo } => match resposta {
            Resposta::Feito => match alvo {
                Alvo::Local(_) => Etapa::Fim(Desfecho::Criado(linque.destino)),
                Alvo::Repositorio => Etapa::Conferencia(linque.destino),
            },
            Resposta::Falha(k) => Etapa::Fim(Desfecho::Falhou(classifica(k))),
            _ => Etapa::Criacao { linque, alvo },
        },
        Etapa::Conferencia(destino) => match resposta {
            Resposta::Sim => Etapa::Fim(Desfecho::Criado(destino)),
            Resposta::Nao => Etapa::Fim(Desfecho::Falhou(Classe::Outra)),
            _ => Etapa::Conferencia(destino),
        },
        Etapa::Fim(desfecho) => Etapa::Fim(desfecho),
    }
}

/// The path that `pedaco` leads to from the directory of the project.
pub open spec fn caminho_computado(executavel: Trilha, pedaco: Seq<char>) -> Trilha {
    base_do_projeto(executavel).desce_por(pedaco)
}

/// Finds a path of the project from the path of the running executable,
/// which a plain build puts two directories below the project's own:
/// three levels up from the executable, then down through the parts that
/// `caminho_str` names.
pub fn computa_caminho(executavel: &Caminho, caminho_str: &str) -> (r: Caminho)
    ensures
        r@ == caminho_computado(executavel@, caminho_str@),
{
    let mut base = executavel.copia();
    base.sobe();
    base.sobe();
    base.sobe();
    base.desce_por(caminho_str);
    base
}

/// The local link of a build mode: from the executable that this mode
/// builds to a name beside the build directory, `nome-debug` for a debug
/// build and `nome` itself for a release build.
pub open spec fn elo_local(executavel: Trilha, nome: Seq<char>, modo: Modo) -> Elo {
    match modo {
        Modo::Debug => Elo {
            fonte: caminho_computado(executavel, "target/debug/"@ + nome_do_programa()),
            destino: caminho_computado(executavel, nome + "-debug"@),
        },
        Modo::Release => Elo {
            fonte: caminho_computado(executavel, "target/release/"@ + nome_do_programa()),
            destino: caminho_computado(executavel, nome),
        },
    }
}

/// Starts the attempt at the local link of the build mode `modo`: the
/// first thing asked is whether the destination exists.
pub fn cria_linques_locais(executavel: &Caminho, nome_do_linque: &str, modo: Modo) -> (r: Etapa)
    ensures
        r@ == (Passo::Existencia {
            elo: elo_local(executavel@, nome_do_linque@, modo),
            alvo: Alvo::Local(modo),
        }),
{
    let linque = match modo {
        Modo::Debug => {
            let novo_nome = String::from_str(nome_do_linque).concat("-debug");
            let antigo_nome = String::from_str("target/debug/").concat("cargo-listagem.exe");
            Linque {
                fonte: computa_caminho(executavel, antigo_nome.as_str()),
                destino: computa_caminho(executavel, novo_nome.as_str()),
            }
        },
        Modo::Release => {
            let antigo_nome = String::from_str("target/release/").concat("cargo-listagem.exe");
            Linque {
                fonte: computa_caminho(executavel, antigo_nome.as_str()),
                destino: computa_caminho(executavel, nome_do_linque),
            }
        },
    };
    Etapa::Existencia { linque, alvo: Alvo::Local(modo) }
}

/// The link in the shared directory: from the running executable to
/// `nome` inside `diretorio`.
pub open spec fn elo_externo(executavel: Trilha, diretorio: Trilha, nome: Seq<char>) -> Elo {
    Elo { fonte: executavel, destino: diretorio.desce_por(nome) }
}

/// Starts the attempt at the link in the shared directory. Without a
/// usable configuration the attempt is over before anything is asked of
/// the file system; with one, the first thing asked is whether the
/// destination exists.
pub fn cria_linques_no_repositorio(
    executavel: &Caminho,
    configuracao: &Configuracao,
    nome_do_linque: &str,
) -> (r: Etapa)
    ensures
        r@ == match *configuracao {
            Configuracao::Diretorio(d) => Passo::Existencia {
                elo: elo_externo(executavel@, d@, nome_do_linque@),
                alvo: Alvo::Repositorio,
            },
            Configuracao::Ausente => Passo::Fim(Fecho::Falhou(Classe::EntradaInvalida)),
            Configuracao::NaoTextual => Passo::Fim(Fecho::Falhou(Classe::DadoInvalido)),
        },
{
    match configuracao {
        Configuracao::Diretorio(diretorio) => {
            let mut destino = diretorio.copia();
            destino.desce_por(nome_do_linque);
            Etapa::Existencia {
                linque: Linque { fonte: executavel.copia(), destino },
                alvo: Alvo::Repositorio,
            }
        },
        Configuracao::Ausente => Etapa::Fim(Desfecho::Falhou(Classe::EntradaInvalida)),
        Configuracao::NaoTextual => Etapa::Fim(Desfecho::Falhou(Classe::DadoInvalido)),
    }
}

/// The two attempts of one run: the local link first, then the link in
/// the shared directory.
#[derive(Debug, PartialEq, Eq)]
pub struct Plano {
    pub local: Etapa,
    pub externo: Etapa,
}

/// Plans the links of one run, named `nome_do_linque`: the local link of
/// the build mode, and the link in the shared directory that the
/// configuration names.
pub fn linca_executaveis(
    nome_do_linque: &str,
    modo: Modo,
    executavel: &Caminho,
    configuracao: &Configuracao,
) -> (r: Plano)
    ensures
        r.local@ == (Passo::Existencia {
            elo: elo_local(executavel@, nome_do_linque@, modo),
            alvo: Alvo::Local(modo),
        }),
        r.externo@ == match *configuracao {
            Configuracao::Diretorio(d) => Passo::Existencia {
                elo: elo_externo(executavel@, d@, nome_do_linque@),
                alvo: Alvo::Repositorio,
            },
            Configuracao::Ausente => Passo::Fim(Fecho::Falhou(Classe::EntradaInvalida)),
            Configuracao::NaoTextual => Passo::Fim(Fecho::Falhou(Classe::DadoInvalido)),
        },
{
    Plano {
        local: cria_linques_locais(executavel, nome_do_linque, modo),
        externo: cria_linques_no_repositorio(executavel, configuracao, nome_do_linque),
    }
}

/// What is made of the end of an attempt, as plain text.
pub enum Aviso {
    Segue(Seq<char>),
    Aborta(Classe),
}

/// What is made of the end of an attempt: a line for the user, after
/// which the run goes on, or the end of the run for a failure of the
/// class given.
#[derive(Debug, PartialEq, Eq)]
pub enum Relato {
    Segue(String),
    Aborta(Classe),
}

impl View for Relato {
    type V = Aviso;

    open spec fn view(&self) -> Aviso {
        match *self {
            Relato::Segue(s) => Aviso::Segue(s@),
            Relato::Aborta(k) => Aviso::Aborta(k),
        }
    }
}

/// What is said of the end `fecho` of the attempt at `alvo`. A link made
/// and a destination that was there already are told for every link; a
/// build that is no release and a missing or unusable configuration only
/// concern the shared directory. Everything else ends the run.
pub open spec fn aviso_de(alvo: Alvo, fecho: Fecho) -> Aviso {
    match (alvo, fecho) {
        (Alvo::Local(_), Fecho::Criado(_)) => Aviso::Segue(
            "O linque local foi criado com sucesso."@,
        ),
        (Alvo::Local(Modo::Debug), Fecho::Falhou(Classe::JaExiste)) => Aviso::Segue(
            "Já existe um linque local do 'modo debug'."@,
        ),
        (Alvo::Local(Modo::Release), Fecho::Falhou(Classe::JaExiste)) => Aviso::Segue(
            "Já existe um linque local."@,
        ),
        (Alvo::Repositorio, Fecho::Criado(_)) => Aviso::Segue(
            "Linque criado com sucesso em $LINKS."@,
        ),
        (Alvo::Repositorio, Fecho::Falhou(Classe::JaExiste)) => Aviso::Segue(
            "Já existe um linque em $LINKS."@,
        ),
        (Alvo::Repositorio, Fecho::Falhou(Classe::NaoSuportado)) => Aviso::Segue(
            "Sistema ou ambiente não suportado."@,
        ),
        (Alvo::Repositorio, Fecho::Falhou(Classe::EntradaInvalida)) => Aviso::Segue(
            "A variável $LINKS não está definida."@,
        ),
        (Alvo::Repositorio, Fecho::Falhou(Classe::DadoInvalido)) => Aviso::Segue(
            "A variável $LINKS não guarda um texto válido."@,
        ),
        (_, Fecho::Falhou(k)) => Aviso::Aborta(k),
    }
}

/// Says what is made of the end of the attempt at `alvo`.
pub fn relata(alvo: Alvo, desfecho: &Desfecho) -> (r: Relato)
    ensures
        r@ == aviso_de(alvo, desfecho@),
{
    match desfecho {
        Desfecho::Criado(_) => match alvo {
            Alvo::Local(_) => Relato::Segue(
                String::from_str("O linque local foi criado com sucesso."),
            ),
            Alvo::Repositorio => Relato::Segue(
                String::from_str("Linque criado com sucesso em $LINKS."),
            ),
        },
        Desfecho::Falhou(k) => match (alvo, *k) {
            (Alvo::Local(Modo::Debug), Classe::JaExiste) => Relato::Segue(
                String::from_str("Já existe um linque local do 'modo debug'."),
            ),
            (Alvo::Local(Modo::Release), Classe::JaExiste) => Relato::Segue(
                String::from_str("Já existe um linque local."),
            ),
            (Alvo::Repositorio, Classe::JaExiste) => Relato::Segue(
                String::from_str("Já existe um linque em $LINKS."),
            ),
            (Alvo::Repositorio, Classe::NaoSuportado) => Relato::Segue(
                String::from_str("Sistema ou ambiente não suportado."),
            ),
            (Alvo::Repositorio, Classe::EntradaInvalida) => Relato::Segue(
                String::from_str("A variável $LINKS não está definida."),
            ),
            (Alvo::Repositorio, Classe::DadoInvalido) => Relato::Segue(
                String::from_str("A variável $LINKS não guarda um texto válido."),
            ),
            (_, classe) => Relato::Aborta(classe),
        },
    }
}

/// Where an attempt stands after the answers `retornos`, taken in turn.
pub open spec fn percorre(passo: Passo, retornos: Seq<Retorno>) -> Passo
    decreases retornos.len(),
{
    if retornos.len() == 0 {
        passo
    } else {
        percorre(seguinte(passo, retornos.first()), retornos.drop_first())
    }
}

/// Whether the attempt that starts at `passo` asks for a link to be made,
/// at the start or after any number of the answers `retornos`. Making the
/// link is the only thing an attempt ever asks that changes the disk.
pub open spec fn pede_criacao(passo: Passo, retornos: Seq<Retorno>) -> bool {
    exists|k: int| 0 <= k <= retornos.len() && #[trigger] percorre(passo, retornos.take(k)) is Criacao
}

/// An attempt that is over stays over, whatever is answered.
pub proof fn lema_fim_permanece(fecho: Fecho, retornos: Seq<Retorno>)
    ensures
        percorre(Passo::Fim(fecho), retornos) == Passo::Fim(fecho),
    decreases retornos.len(),
{
    if retornos.len() > 0 {
        lema_fim_permanece(fecho, retornos.drop_first());
    }
}

/// Where the destination of a link exists already, the attempt ends at
/// once with that class of failure, and whatever is answered afterwards
/// it never asks for the link to be made. This holds of every link, the
/// local ones and the one in the shared directory.
pub proof fn lei_destino_existente(elo: Elo, alvo: Alvo, retornos: Seq<Retorno>)
    ensures
        seguinte(Passo::Existencia { elo, alvo }, Retorno::Sim) == Passo::Fim(
            Fecho::Falhou(Classe::JaExiste),
        ),
        percorre(Passo::Existencia { elo, alvo }, seq![Retorno::Sim] + retornos) == Passo::Fim(
            Fecho::Falhou(Classe::JaExiste),
        ),
        !pede_criacao(Passo::Existencia { elo, alvo }, seq![Retorno::Sim] + retornos),
{
    let inicio = Passo::Existencia { elo, alvo };
    let fim = Fecho::Falhou(Classe::JaExiste);
    let todos = seq![Retorno::Sim] + retornos;
    assert(todos.first() == Retorno::Sim);
    assert(todos.drop_first() =~= retornos);
    lema_fim_permanece(fim, retornos);
    assert forall|k: int| 0 <= k <= todos.len() implies !(#[trigger] percorre(
        inicio,
        todos.take(k),
    ) is Criacao) by {
        let ate = todos.take(k);
        if k > 0 {
            assert(ate.first() == Retorno::Sim);
            lema_fim_permanece(fim, ate.drop_first());
        }
    }
}

/// A destination that turns up only when the link is being made, and has
/// the making refused, ends the attempt with the same class of failure.
pub proof fn lei_criacao_recusada(elo: Elo, alvo: Alvo)
    ensures
        seguinte(Passo::Criacao { elo, alvo }, Retorno::Falha(Classe::JaExiste)) == Passo::Fim(
            Fecho::Falhou(Classe::JaExiste),
        ),
{
}

/// Whether a failure of the file system of class `k` is one that the
/// attempt at `alvo` expects: a destination that exists, for every link,
/// and an unsupported operation, for the link in the shared directory.
pub open spec fn falha_esperada(alvo: Alvo, k: Classe) -> bool {
    k == Classe::JaExiste || (alvo == Alvo::Repositorio && k == Classe::NaoSuportado)
}

/// A failure to make the link that is none of the expected ones ends the
/// attempt in a way that ends the run: no line is written for that link.
pub proof fn lei_falha_inesperada_encerra(elo: Elo, alvo: Alvo, k: Classe)
    requires
        !falha_esperada(alvo, k),
    ensures
        seguinte(Passo::Criacao { elo, alvo }, Retorno::Falha(k)) == Passo::Fim(
            Fecho::Falhou(classe_do_disco(k)),
        ),
        aviso_de(alvo, Fecho::Falhou(classe_do_disco(k))) == Aviso::Aborta(classe_do_disco(k)),
{
}

/// A failure to resolve the executable that is none of the expected ones
/// ends the attempt at the link in the shared directory in a way that
/// ends the run.
pub proof fn lei_resolucao_falha_encerra(elo: Elo, k: Classe)
    requires
        !falha_esperada(Alvo::Repositorio, k),
    ensures
        seguinte(Passo::Resolucao(elo), Retorno::Falha(k)) == Passo::Fim(
            Fecho::Falhou(Classe::Outra),
        ),
        aviso_de(Alvo::Repositorio, Fecho::Falhou(Classe::Outra)) == Aviso::Aborta(Classe::Outra),
{
}

/// Where an attempt stands after one answer more.
pub proof fn lema_percorre_mais_um(passo: Passo, retornos: Seq<Retorno>, r: Retorno)
    ensures
        percorre(passo, retornos.push(r)) == seguinte(percorre(passo, retornos), r),
    decreases retornos.len(),
{
    let todos = retornos.push(r);
    if retornos.len() == 0 {
        assert(todos.drop_first() =~= Seq::<Retorno>::empty());
        assert(percorre(seguinte(passo, r), todos.drop_first()) == seguinte(passo, r));
    } else {
        assert(todos.first() == retornos.first());
        assert(todos.drop_first() =~= retornos.drop_first().push(r));
        lema_percorre_mais_um(seguinte(passo, retornos.first()), retornos.drop_first(), r);
    }
}

/// The link in the shared directory is only ever made from a source of
/// which the file system has said that it is no symbolic link: whenever
/// the attempt asks for that link to be made, an earlier answer to the
/// question about this very source was no.
pub proof fn lei_fonte_resolvida(inicio: Elo, retornos: Seq<Retorno>)
    requires
        percorre(Passo::Existencia { elo: inicio, alvo: Alvo::Repositorio }, retornos) is Criacao,
    ensures
        exists|j: int|
            0 <= j < retornos.len() && retornos[j] == Retorno::Nao && #[trigger] percorre(
                Passo::Existencia { elo: inicio, alvo: Alvo::Repositorio },
                retornos.take(j),
            ) == Passo::Natureza(
                percorre(
                    Passo::Existencia { elo: inicio, alvo: Alvo::Repositorio },
                    retornos,
                )->Criacao_elo,
            ),
    decreases retornos.len(),
{
    let partida = Passo::Existencia { elo: inicio, alvo: Alvo::Repositorio };
    let chegada = percorre(partida, retornos);
    if retornos.len() > 0 {
        let antes = retornos.drop_last();
        let ultimo = retornos.last();
        assert(antes.push(ultimo) =~= retornos);
        lema_percorre_mais_um(partida, antes, ultimo);
        lema_alvo_do_repositorio(inicio, antes);
        let penultimo = percorre(partida, antes);
        if penultimo == chegada {
            lei_fonte_resolvida(inicio, antes);
            let j = choose|j: int|
                0 <= j < antes.len() && antes[j] == Retorno::Nao && #[trigger] percorre(
                    partida,
                    antes.take(j),
                ) == Passo::Natureza(chegada->Criacao_elo);
            assert(antes.take(j) =~= retornos.take(j));
            assert(retornos[j] == antes[j]);
        } else {
            let j = retornos.len() - 1;
            assert(retornos.take(j) =~= antes);
            assert(penultimo == Passo::Natureza(chegada->Criacao_elo));
            assert(retornos[j] == Retorno::Nao);
        }
    }
}

/// An attempt at the link in the shared directory stays one: whenever it
/// waits for the destination to be looked at or for the link to be made,
/// it does so for the shared directory.
proof fn lema_alvo_do_repositorio(inicio: Elo, retornos: Seq<Retorno>)
    ensures
        match percorre(Passo::Existencia { elo: inicio, alvo: Alvo::Repositorio }, retornos) {
            Passo::Existencia { elo, alvo } => alvo == Alvo::Repositorio,
            Passo::Criacao { elo, alvo } => alvo == Alvo::Repositorio,
            _ => true,
        },
    decreases retornos.len(),
{
    if retornos.len() > 0 {
        let antes = retornos.drop_last();
        assert(antes.push(retornos.last()) =~= retornos);
        lema_percorre_mais_um(
            Passo::Existencia { elo: inicio, alvo: Alvo::Repositorio },
            antes,
            retornos.last(),
        );
        lema_alvo_do_repositorio(inicio, antes);
    }
}

/// From a source without the release part, the attempt at the link in the
/// shared directory only ever waits for the destination to be looked at,
/// or is over.
proof fn lema_sem_release(elo: Elo, passo: Passo, retornos: Seq<Retorno>)
    requires
        !elo.fonte.partes.contains(parte_release()),
        passo == (Passo::Existencia { elo, alvo: Alvo::Repositorio }) || passo is Fim,
    ensures
        percorre(passo, retornos) == (Passo::Existencia { elo, alvo: Alvo::Repositorio })
            || percorre(passo, retornos) is Fim,
    decreases retornos.len(),
{
    if retornos.len() > 0 {
        lema_sem_release(elo, seguinte(passo, retornos.first()), retornos.drop_first());
    }
}

/// Where no part of the executable's path is the release part, the attempt
/// at the link in the shared directory never asks for the link to be
/// made, whatever is answered; and once the destination is known to be
/// free it ends as unsupported.
pub proof fn lei_sem_release(
    executavel: Trilha,
    diretorio: Trilha,
    nome: Seq<char>,
    retornos: Seq<Retorno>,
)
    requires
        !executavel.partes.contains(parte_release()),
    ensures
        seguinte(
            Passo::Existencia {
                elo: elo_externo(executavel, diretorio, nome),
                alvo: Alvo::Repositorio,
            },
            Retorno::Nao,
        ) == Passo::Fim(Fecho::Falhou(Classe::NaoSuportado)),
        !pede_criacao(
            Passo::Existencia {
                elo: elo_externo(executavel, diretorio, nome),
                alvo: Alvo::Repositorio,
            },
            retornos,
        ),
{
    let elo = elo_externo(executavel, diretorio, nome);
    let inicio = Passo::Existencia { elo, alvo: Alvo::Repositorio };
    assert forall|k: int| 0 <= k <= retornos.len() implies !(#[trigger] percorre(
        inicio,
        retornos.take(k),
    ) is Criacao) by {
        lema_sem_release(elo, inicio, retornos.take(k));
    }
}

} // verus!
