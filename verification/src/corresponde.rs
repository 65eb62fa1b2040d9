//! A search through a directory tree for the files of one extension, to
//! hold the unpacked sources against the packages that were downloaded.
//!
//! The search reads nothing itself. It names the directory it wants read,
//! takes what the reading gave, and goes on from there, depth first.

use vstd::prelude::*;
use crate::caminho::Caminho;
use crate::caminho::Trilha;
use crate::varredura::itens_de;
use crate::varredura::trilhas;
use crate::varredura::Entrada;
use crate::varredura::Item;
use crate::varredura::Leitura;
use crate::varredura::Lido;
use crate::varredura::Tipo;
use crate::texto::ultimo;
use crate::texto::lema_ultimo;
use crate::texto::acha_ultimo;
use crate::texto::algarismos;
use crate::texto::decimal;

verus! {

/// The extension of a file name: what stands behind its last dot. A name
/// without a dot has none, nor has one whose only dot is its first
/// character, nor has the name of the parent directory.
pub open spec fn extensao_de(nome: Seq<char>) -> Option<Seq<char>> {
    if ultimo(nome, '.') <= 0 || nome == seq!['.', '.'] {
        None
    } else {
        Some(nome.skip(ultimo(nome, '.') + 1))
    }
}

/// The extension of a file name.
pub fn extensao<'a>(nome: &'a str) -> (r: Option<&'a str>)
    ensures
        r is Some <==> extensao_de(nome@) is Some,
        r matches Some(e) ==> Some(e@) == extensao_de(nome@),
{
    proof {
        lema_ultimo(nome@, '.');
    }
    match acha_ultimo(nome, '.') {
        None => None,
        Some(i) => {
            let total: usize = nome.unicode_len();
            if i == 0 {
                None
            } else if i == 1 && total == 2 && nome.get_char(0) == '.' {
                assert(nome@ =~= seq!['.', '.']);
                None
            } else {
                assert(nome@ != seq!['.', '.']) by {
                    if nome@ == seq!['.', '.'] {
                        assert(seq!['.', '.'][1] == '.');
                        assert(nome@.len() == 2);
                    }
                }
                Some(nome.substring_char(i + 1, total))
            }
        },
    }
}

/// What is to be done with one entry, as plain text.
pub enum Decisao {
    Colhe(Trilha),
    Desce(Trilha),
    Avisa(Trilha),
    Ignora,
}

/// What is to be done with one entry of a directory.
#[derive(Debug, PartialEq, Eq)]
pub enum Acao {
    /// A file of the extension: its path goes to the list.
    Colhe(Caminho),
    /// A directory: it is searched in its turn.
    Desce(Caminho),
    /// A symbolic link: it is passed over, and that is told.
    Avisa(Caminho),
    /// Anything else is passed over in silence.
    Ignora,
}

impl View for Acao {
    type V = Decisao;

    open spec fn view(&self) -> Decisao {
        match *self {
            Acao::Colhe(c) => Decisao::Colhe(c@),
            Acao::Desce(c) => Decisao::Desce(c@),
            Acao::Avisa(c) => Decisao::Avisa(c@),
            Acao::Ignora => Decisao::Ignora,
        }
    }
}

/// The actions of a list as plain text.
pub open spec fn decisoes(acoes: Seq<Acao>) -> Seq<Decisao> {
    acoes.map_values(|a: Acao| a@)
}

/// What is to be done with the entry `item` of the directory `pai` in a
/// search for the files of the extension `extensao`.
pub open spec fn decisao_de(pai: Trilha, item: Item, extensao: Seq<char>) -> Decisao {
    match item.tipo {
        Tipo::Arquivo => if extensao_de(item.nome) == Some(extensao) {
            Decisao::Colhe(pai.desce(item.nome))
        } else {
            Decisao::Ignora
        },
        Tipo::Diretorio => Decisao::Desce(pai.desce(item.nome)),
        Tipo::Linque => Decisao::Avisa(pai.desce(item.nome)),
        Tipo::Outro => Decisao::Ignora,
    }
}

/// Whether the two texts are the same.
fn mesmo_texto(a: &str, b: &str) -> (r: bool)
    ensures
        r == (a@ == b@),
{
    String::from_str(a) == String::from_str(b)
}

/// Says what is to be done with one entry of the directory `raiz`.
pub fn decide(raiz: &Caminho, entrada: &Entrada, extensao_procurada: &str) -> (r: Acao)
    ensures
        r@ == decisao_de(raiz@, entrada@, extensao_procurada@),
{
    match entrada.tipo {
        Tipo::Arquivo => {
            let bate = match extensao(entrada.nome.as_str()) {
                Some(e) => mesmo_texto(e, extensao_procurada),
                None => false,
            };
            if bate {
                Acao::Colhe(raiz.junta(entrada.nome.as_str()))
            } else {
                Acao::Ignora
            }
        },
        Tipo::Diretorio => Acao::Desce(raiz.junta(entrada.nome.as_str())),
        Tipo::Linque => Acao::Avisa(raiz.junta(entrada.nome.as_str())),
        Tipo::Outro => Acao::Ignora,
    }
}

/// After how many files found a line on the progress is due.
pub const PASSO_DO_AVISO: usize = 15;

/// The line on the progress of the search.
pub open spec fn aviso_de_progresso(total: nat) -> Seq<char> {
    "Já iteramos no total ... "@ + algarismos(total)
}

/// The line that is due when a directory has been searched and `total`
/// files are on the list: one whenever the total is a multiple of the
/// step, and none otherwise.
pub fn progresso(total: usize) -> (r: Option<String>)
    ensures
        r is Some <==> total % PASSO_DO_AVISO == 0,
        r matches Some(linha) ==> linha@ == aviso_de_progresso(total as nat),
{
    if total % PASSO_DO_AVISO == 0 {
        let mut linha = String::from_str("Já iteramos no total ... ");
        linha.append(decimal(total as u128).as_str());
        Some(linha)
    } else {
        None
    }
}

/// A word to the user from the search, as plain text.
pub enum Anotacao {
    Linque(Trilha),
    Progresso(Seq<char>),
}

/// A word to the user from the search.
#[derive(Debug, PartialEq, Eq)]
pub enum Nota {
    /// The symbolic link at this path was passed over.
    Linque(Caminho),
    /// The line on the progress of the search.
    Progresso(String),
}

impl View for Nota {
    type V = Anotacao;

    open spec fn view(&self) -> Anotacao {
        match *self {
            Nota::Linque(c) => Anotacao::Linque(c@),
            Nota::Progresso(linha) => Anotacao::Progresso(linha@),
        }
    }
}

/// The notes of a list as plain text.
pub open spec fn anotacoes(notas: Seq<Nota>) -> Seq<Anotacao> {
    notas.map_values(|n: Nota| n@)
}

/// A directory that is being searched, as plain text: its path and those
/// of its entries that are still to be gone through.
pub struct Patamar {
    pub caminho: Trilha,
    pub resto: Seq<Item>,
}

/// A directory that is being searched: its path, its entries, and how
/// many of them have been gone through.
#[derive(Debug, PartialEq, Eq)]
pub struct Nivel {
    caminho: Caminho,
    entradas: Vec<Entrada>,
    proxima: usize,
}

impl View for Nivel {
    type V = Patamar;

    closed spec fn view(&self) -> Patamar {
        Patamar {
            caminho: self.caminho@,
            resto: itens_de(self.entradas@).skip(self.proxima as int),
        }
    }
}

impl Nivel {
    #[verifier::type_invariant]
    closed spec fn coerente(&self) -> bool {
        self.proxima <= self.entradas.len()
    }
}

/// The directories of a list as plain text.
pub open spec fn patamares(niveis: Seq<Nivel>) -> Seq<Patamar> {
    niveis.map_values(|n: Nivel| n@)
}

/// Where a search stands, as plain text.
pub enum Procura {
    Aberta { extensao: Seq<char>, pilha: Seq<Patamar>, pedido: Trilha, lista: Seq<Trilha> },
    Concluida(Seq<Trilha>),
    Falhou(Trilha),
}

/// Where a search stands.
#[derive(Debug, PartialEq, Eq)]
pub enum Busca {
    /// The directory `pedido` is to be read. `pilha` holds the directories
    /// above it, the one just above last, each with the entries still
    /// to be gone through; `lista` holds the files found so far.
    Aberta { extensao: String, pilha: Vec<Nivel>, pedido: Caminho, lista: Vec<Caminho> },
    /// The search is over: these are the files of the extension.
    Concluida(Vec<Caminho>),
    /// The directory given could not be read, and the search was given up.
    Falhou(Caminho),
}

impl View for Busca {
    type V = Procura;

    open spec fn view(&self) -> Procura {
        match *self {
            Busca::Aberta { extensao, pilha, pedido, lista } => Procura::Aberta {
                extensao: extensao@,
                pilha: patamares(pilha@),
                pedido: pedido@,
                lista: trilhas(lista@),
            },
            Busca::Concluida(lista) => Procura::Concluida(trilhas(lista@)),
            Busca::Falhou(c) => Procura::Falhou(c@),
        }
    }
}

/// How many entries the directory on top of the stack has still to go
/// through.
pub open spec fn por_fazer(pilha: Seq<Patamar>) -> nat {
    if pilha.len() == 0 {
        0
    } else {
        pilha.last().resto.len()
    }
}

/// The stack once the first of the entries still to go through on top of
/// it is behind.
pub open spec fn adiante(pilha: Seq<Patamar>) -> Seq<Patamar>
    recommends
        pilha.len() > 0,
{
    pilha.drop_last().push(
        Patamar { caminho: pilha.last().caminho, resto: pilha.last().resto.drop_first() },
    )
}

/// Where the search comes to rest when it goes on from the directories
/// of `pilha` with `lista` in hand. It goes through the entries of the
/// directory on top, in their order: a file of the extension goes to the
/// list; a directory stops the search until it is read; a directory that
/// is done gives way to the one below it; and with no directory left the
/// search is over.
pub open spec fn segue(extensao: Seq<char>, pilha: Seq<Patamar>, lista: Seq<Trilha>) -> Procura
    decreases pilha.len(), por_fazer(pilha),
{
    if pilha.len() == 0 {
        Procura::Concluida(lista)
    } else if pilha.last().resto.len() == 0 {
        segue(extensao, pilha.drop_last(), lista)
    } else {
        match decisao_de(pilha.last().caminho, pilha.last().resto.first(), extensao) {
            Decisao::Colhe(c) => segue(extensao, adiante(pilha), lista.push(c)),
            Decisao::Desce(c) => Procura::Aberta {
                extensao,
                pilha: adiante(pilha),
                pedido: c,
                lista,
            },
            _ => segue(extensao, adiante(pilha), lista),
        }
    }
}

/// The notes that fall on the way on which `segue` goes: one for each
/// symbolic link passed over, and, whenever a directory other than the
/// first is done and the files found are a multiple of the step, the line
/// on the progress.
pub open spec fn notas_de(extensao: Seq<char>, pilha: Seq<Patamar>, lista: Seq<Trilha>) -> Seq<
    Anotacao,
>
    decreases pilha.len(), por_fazer(pilha),
{
    if pilha.len() == 0 {
        Seq::empty()
    } else if pilha.last().resto.len() == 0 {
        if pilha.len() > 1 && lista.len() % (PASSO_DO_AVISO as nat) == 0 {
            seq![Anotacao::Progresso(aviso_de_progresso(lista.len()))] + notas_de(
                extensao,
                pilha.drop_last(),
                lista,
            )
        } else {
            notas_de(extensao, pilha.drop_last(), lista)
        }
    } else {
        match decisao_de(pilha.last().caminho, pilha.last().resto.first(), extensao) {
            Decisao::Colhe(c) => notas_de(extensao, adiante(pilha), lista.push(c)),
            Decisao::Desce(c) => Seq::empty(),
            Decisao::Avisa(c) => seq![Anotacao::Linque(c)] + notas_de(
                extensao,
                adiante(pilha),
                lista,
            ),
            Decisao::Ignora => notas_de(extensao, adiante(pilha), lista),
        }
    }
}

/// The directory that the search wants read next, if it wants any.
pub open spec fn pedido_da_busca(p: Procura) -> Option<Trilha> {
    match p {
        Procura::Aberta { extensao, pilha, pedido, lista } => Some(pedido),
        _ => None,
    }
}

/// Where the search stands once the directory it wanted read gave
/// `lido`. A directory that cannot be read ends the search, and what was
/// found is lost. A search that wants nothing stays where it is.
pub open spec fn buscado(p: Procura, lido: Lido) -> Procura {
    match p {
        Procura::Aberta { extensao, pilha, pedido, lista } => match lido {
            Lido::Entradas(itens) => segue(
                extensao,
                pilha.push(Patamar { caminho: pedido, resto: itens }),
                lista,
            ),
            Lido::Falha => Procura::Falhou(pedido),
        },
        _ => p,
    }
}

/// The notes that fall when the directory that the search wanted read
/// gave `lido`.
pub open spec fn avisos_da_busca(p: Procura, lido: Lido) -> Seq<Anotacao> {
    match p {
        Procura::Aberta { extensao, pilha, pedido, lista } => match lido {
            Lido::Entradas(itens) => notas_de(
                extensao,
                pilha.push(Patamar { caminho: pedido, resto: itens }),
                lista,
            ),
            Lido::Falha => Seq::empty(),
        },
        _ => Seq::empty(),
    }
}

/// Starts the search below `raiz` for the files of the extension
/// `extensao`.
pub fn filtras_arquivos_do_tipo(raiz: Caminho, extensao: &str) -> (r: Busca)
    ensures
        r@ == (Procura::Aberta {
            extensao: extensao@,
            pilha: Seq::empty(),
            pedido: raiz@,
            lista: Seq::empty(),
        }),
{
    let pilha: Vec<Nivel> = Vec::new();
    let lista: Vec<Caminho> = Vec::new();
    assert(patamares(pilha@) =~= Seq::<Patamar>::empty());
    assert(trilhas(lista@) =~= Seq::<Trilha>::empty());
    Busca::Aberta { extensao: String::from_str(extensao), pilha, pedido: raiz, lista }
}

impl Busca {
    /// The directory that the search wants read next; none once the
    /// search is over.
    pub fn pedido(&self) -> (r: Option<&Caminho>)
        ensures
            r is Some <==> pedido_da_busca(self@) is Some,
            r matches Some(c) ==> Some(c@) == pedido_da_busca(self@),
    {
        match self {
            Busca::Aberta { extensao, pilha, pedido, lista } => Some(pedido),
            _ => None,
        }
    }

    /// Takes what reading the wanted directory gave, and goes on until
    /// the next directory is to be read or the search is over. Beside the
    /// new state stand the notes that fell on the way, in their order.
    pub fn recebe(self, leitura: Leitura) -> (r: (Busca, Vec<Nota>))
        ensures
            r.0@ == buscado(self@, leitura@),
            anotacoes(r.1@) == avisos_da_busca(self@, leitura@),
    {
        let mut notas: Vec<Nota> = Vec::new();
        assert(anotacoes(notas@) =~= Seq::<Anotacao>::empty());
        match self {
            Busca::Aberta { extensao, pilha, pedido, lista } => match leitura {
                Leitura::Falha => (Busca::Falhou(pedido), notas),
                Leitura::Entradas(entradas) => {
                    let topo = Nivel { caminho: pedido, entradas, proxima: 0 };
                    assert(topo@.resto =~= itens_de(entradas@));
                    apenas_filtra_arquivos_da_extensao(extensao, pilha, topo, lista)
                },
            },
            outra => (outra, notas),
        }
    }

    /// How the search ended: with the files it found, or with the
    /// directory that could not be read. Nothing while the search still
    /// wants a directory read.
    pub fn resultado(self) -> (r: Option<Result<Vec<Caminho>, Caminho>>)
        ensures
            r is None <==> pedido_da_busca(self@) is Some,
            r matches Some(Ok(lista)) ==> self@ == Procura::Concluida(trilhas(lista@)),
            r matches Some(Err(c)) ==> self@ == Procura::Falhou(c@),
    {
        match self {
            Busca::Aberta { extensao, pilha, pedido, lista } => None,
            Busca::Concluida(lista) => Some(Ok(lista)),
            Busca::Falhou(c) => Some(Err(c)),
        }
    }
}

/// Goes through the entries of the directory `primeiro`, which stands on
/// the directories of `abaixo`, and through what is left of those once it
/// is done: takes the files of the extension into the list, notes the
/// symbolic links, and stops at the first directory that is to be read.
fn apenas_filtra_arquivos_da_extensao(extensao: String, abaixo: Vec<Nivel>, primeiro: Nivel, achados: Vec<Caminho>) -> (r: (
    Busca,
    Vec<Nota>,
))
    ensures
        r.0@ == segue(extensao@, patamares(abaixo@).push(primeiro@), trilhas(achados@)),
        anotacoes(r.1@) == notas_de(
            extensao@,
            patamares(abaixo@).push(primeiro@),
            trilhas(achados@),
        ),
{
    let ghost chegada = segue(extensao@, patamares(abaixo@).push(primeiro@), trilhas(achados@));
    let ghost todas = notas_de(extensao@, patamares(abaixo@).push(primeiro@), trilhas(achados@));
    let mut pilha = abaixo;
    let mut topo = primeiro;
    let mut lista = achados;
    let mut notas: Vec<Nota> = Vec::new();
    assert(anotacoes(notas@) =~= Seq::<Anotacao>::empty());
    assert(anotacoes(notas@) + todas =~= todas);
    loop
        invariant
            chegada == segue(extensao@, patamares(abaixo@).push(primeiro@), trilhas(achados@)),
            todas == notas_de(extensao@, patamares(abaixo@).push(primeiro@), trilhas(achados@)),
            segue(extensao@, patamares(pilha@).push(topo@), trilhas(lista@)) == chegada,
            anotacoes(notas@) + notas_de(
                extensao@,
                patamares(pilha@).push(topo@),
                trilhas(lista@),
            ) == todas,
        decreases pilha.len(), topo.entradas.len() - topo.proxima,
    {
        proof {
            use_type_invariant(&topo);
        }
        let ghost cheia = patamares(pilha@).push(topo@);
        let ghost colhidas = trilhas(lista@);
        let ghost ditas = anotacoes(notas@);
        assert(cheia.last() == topo@);
        assert(cheia.drop_last() =~= patamares(pilha@));
        if topo.proxima < topo.entradas.len() {
            let acao = decide(&topo.caminho, &topo.entradas[topo.proxima], extensao.as_str());
            assert(topo@.resto.first() == topo.entradas[topo.proxima as int]@);
            let ghost velho = topo@;
            topo.proxima = topo.proxima + 1;
            assert(topo@.resto =~= velho.resto.drop_first());
            assert(topo@.caminho == velho.caminho);
            assert(adiante(cheia) =~= patamares(pilha@).push(topo@));
            match acao {
                Acao::Colhe(c) => {
                    lista.push(c);
                    assert(trilhas(lista@) =~= colhidas.push(c@));
                },
                Acao::Desce(c) => {
                    pilha.push(topo);
                    assert(patamares(pilha@) =~= adiante(cheia));
                    assert(ditas + Seq::<Anotacao>::empty() =~= ditas);
                    return (Busca::Aberta { extensao, pilha, pedido: c, lista }, notas);
                },
                Acao::Avisa(c) => {
                    notas.push(Nota::Linque(c));
                    assert(anotacoes(notas@) =~= ditas.push(Anotacao::Linque(c@)));
                    assert(anotacoes(notas@) + notas_de(extensao@, adiante(cheia), colhidas)
                        =~= ditas + (seq![Anotacao::Linque(c@)] + notas_de(
                        extensao@,
                        adiante(cheia),
                        colhidas,
                    )));
                },
                Acao::Ignora => {},
            }
        } else {
            assert(topo@.resto.len() == 0);
            match pilha.pop() {
                None => {
                    assert(cheia.len() == 1);
                    assert(cheia.drop_last().len() == 0);
                    assert(segue(extensao@, cheia, colhidas) == segue(
                        extensao@,
                        cheia.drop_last(),
                        colhidas,
                    ));
                    assert(segue(extensao@, cheia.drop_last(), colhidas) == Procura::Concluida(
                        colhidas,
                    ));
                    assert(notas_de(extensao@, cheia, colhidas) == notas_de(
                        extensao@,
                        cheia.drop_last(),
                        colhidas,
                    ));
                    assert(notas_de(extensao@, cheia.drop_last(), colhidas)
                        == Seq::<Anotacao>::empty());
                    assert(ditas + Seq::<Anotacao>::empty() =~= ditas);
                    return (Busca::Concluida(lista), notas);
                },
                Some(pai) => {
                    assert(cheia.len() > 1);
                    match progresso(lista.len()) {
                        Some(linha) => {
                            notas.push(Nota::Progresso(linha));
                            assert(anotacoes(notas@) =~= ditas.push(
                                Anotacao::Progresso(aviso_de_progresso(colhidas.len())),
                            ));
                            assert(anotacoes(notas@) + notas_de(
                                extensao@,
                                cheia.drop_last(),
                                colhidas,
                            ) =~= ditas + (seq![
                                Anotacao::Progresso(aviso_de_progresso(colhidas.len())),
                            ] + notas_de(extensao@, cheia.drop_last(), colhidas)));
                        },
                        None => {},
                    }
                    topo = pai;
                    assert(patamares(pilha@).push(topo@) =~= cheia.drop_last());
                },
            }
        }
    }
}

/// What stands in a directory, as a tree: the name and kind of an
/// entry and, for a directory, what stands in it in its turn.
pub struct Galho {
    pub nome: Seq<char>,
    pub tipo: Tipo,
    pub filhos: Seq<Galho>,
}

/// The entries that a reading of a directory gives where `galhos` stand
/// in it.
pub open spec fn itens_dos(galhos: Seq<Galho>) -> Seq<Item> {
    galhos.map_values(|g: Galho| Item { nome: g.nome, tipo: g.tipo })
}

/// The files of the extension among `galhos`, which stand in the
/// directory `pai`, and in the directories below them at any depth: each
/// once, in the order of the entries, what a directory holds at the place
/// of the directory. What a symbolic link points at is not looked into.
pub open spec fn colhidos(pai: Trilha, galhos: Seq<Galho>, extensao: Seq<char>) -> Seq<Trilha>
    decreases galhos,
{
    if galhos.len() == 0 {
        Seq::empty()
    } else {
        let g = galhos.first();
        (match g.tipo {
            Tipo::Arquivo => if extensao_de(g.nome) == Some(extensao) {
                seq![pai.desce(g.nome)]
            } else {
                Seq::empty()
            },
            Tipo::Diretorio => colhidos(pai.desce(g.nome), g.filhos, extensao),
            _ => Seq::empty(),
        }) + colhidos(pai, galhos.drop_first(), extensao)
    }
}

/// The readings that the directories among `galhos` and below them
/// give, in the order in which a search comes to them.
pub open spec fn leituras_dos(galhos: Seq<Galho>) -> Seq<Lido>
    decreases galhos,
{
    if galhos.len() == 0 {
        Seq::empty()
    } else {
        let g = galhos.first();
        (match g.tipo {
            Tipo::Diretorio => seq![Lido::Entradas(itens_dos(g.filhos))] + leituras_dos(g.filhos),
            _ => Seq::empty(),
        }) + leituras_dos(galhos.drop_first())
    }
}

/// Where the search stands after the readings `lidos`, taken in turn.
pub open spec fn conduz_busca(p: Procura, lidos: Seq<Lido>) -> Procura
    decreases lidos.len(),
{
    if lidos.len() == 0 {
        p
    } else {
        conduz_busca(buscado(p, lidos.first()), lidos.drop_first())
    }
}

/// A search that stands in the directory `pai`, with `galhos` still to go
/// through, and is given the readings of what lies below them, comes out
/// of the directory with the files of the extension found there.
proof fn lema_busca_desce(
    extensao: Seq<char>,
    pilha: Seq<Patamar>,
    pai: Trilha,
    galhos: Seq<Galho>,
    lista: Seq<Trilha>,
    depois: Seq<Lido>,
)
    ensures
        conduz_busca(
            segue(extensao, pilha.push(Patamar { caminho: pai, resto: itens_dos(galhos) }), lista),
            leituras_dos(galhos) + depois,
        ) == conduz_busca(segue(extensao, pilha, lista + colhidos(pai, galhos, extensao)), depois),
    decreases galhos,
{
    let cheia = pilha.push(Patamar { caminho: pai, resto: itens_dos(galhos) });
    assert(cheia.drop_last() =~= pilha);
    if galhos.len() == 0 {
        assert(lista + colhidos(pai, galhos, extensao) =~= lista);
        assert(leituras_dos(galhos) + depois =~= depois);
    } else {
        let g = galhos.first();
        let resto = galhos.drop_first();
        assert(itens_dos(galhos).first() == Item { nome: g.nome, tipo: g.tipo });
        assert(itens_dos(galhos).drop_first() =~= itens_dos(resto));
        assert(adiante(cheia) =~= pilha.push(Patamar { caminho: pai, resto: itens_dos(resto) }));
        let c = pai.desce(g.nome);
        match decisao_de(pai, itens_dos(galhos).first(), extensao) {
            Decisao::Colhe(_) => {
                lema_busca_desce(extensao, pilha, pai, resto, lista.push(c), depois);
                assert(lista.push(c) + colhidos(pai, resto, extensao) =~= lista + colhidos(
                    pai,
                    galhos,
                    extensao,
                ));
                assert(leituras_dos(galhos) =~= leituras_dos(resto));
            },
            Decisao::Desce(_) => {
                let acima = adiante(cheia);
                let dentro = colhidos(c, g.filhos, extensao);
                let mais = leituras_dos(resto) + depois;
                let todas = leituras_dos(galhos) + depois;
                assert(todas.first() == Lido::Entradas(itens_dos(g.filhos)));
                assert(todas.drop_first() =~= leituras_dos(g.filhos) + mais);
                lema_busca_desce(extensao, acima, c, g.filhos, lista, mais);
                lema_busca_desce(extensao, pilha, pai, resto, lista + dentro, depois);
                assert((lista + dentro) + colhidos(pai, resto, extensao) =~= lista + colhidos(
                    pai,
                    galhos,
                    extensao,
                ));
            },
            _ => {
                lema_busca_desce(extensao, pilha, pai, resto, lista, depois);
                assert(colhidos(pai, galhos, extensao) =~= colhidos(pai, resto, extensao));
                assert(leituras_dos(galhos) =~= leituras_dos(resto));
            },
        }
    }
}

/// A search through a tree of which every directory can be read ends
/// with exactly the files of the extension that the tree holds, at any
/// depth: each once, in the order of the entries, what a directory holds
/// at the place of the directory.
pub proof fn lei_busca_completa(raiz: Trilha, galhos: Seq<Galho>, extensao: Seq<char>)
    ensures
        conduz_busca(
            Procura::Aberta { extensao, pilha: Seq::empty(), pedido: raiz, lista: Seq::empty() },
            seq![Lido::Entradas(itens_dos(galhos))] + leituras_dos(galhos),
        ) == Procura::Concluida(colhidos(raiz, galhos, extensao)),
{
    let vazia = Seq::<Patamar>::empty();
    let nada = Seq::<Trilha>::empty();
    let todas = seq![Lido::Entradas(itens_dos(galhos))] + leituras_dos(galhos);
    assert(todas.first() == Lido::Entradas(itens_dos(galhos)));
    assert(todas.drop_first() =~= leituras_dos(galhos) + Seq::<Lido>::empty());
    lema_busca_desce(extensao, vazia, raiz, galhos, nada, Seq::empty());
    assert(nada + colhidos(raiz, galhos, extensao) =~= colhidos(raiz, galhos, extensao));
}

/// The files that a search has in hand.
pub open spec fn lista_da(p: Procura) -> Seq<Trilha> {
    match p {
        Procura::Aberta { extensao, pilha, pedido, lista } => lista,
        Procura::Concluida(lista) => lista,
        Procura::Falhou(_) => Seq::empty(),
    }
}

/// Going on, a search only adds to the list.
proof fn lema_segue_so_acrescenta(extensao: Seq<char>, pilha: Seq<Patamar>, lista: Seq<Trilha>)
    ensures
        lista.is_prefix_of(lista_da(segue(extensao, pilha, lista))),
    decreases pilha.len(), por_fazer(pilha),
{
    if pilha.len() == 0 {
    } else if pilha.last().resto.len() == 0 {
        lema_segue_so_acrescenta(extensao, pilha.drop_last(), lista);
    } else {
        match decisao_de(pilha.last().caminho, pilha.last().resto.first(), extensao) {
            Decisao::Colhe(c) => {
                lema_segue_so_acrescenta(extensao, adiante(pilha), lista.push(c));
                let fim = lista_da(segue(extensao, pilha, lista));
                assert(lista.push(c).is_prefix_of(fim));
                assert forall|i: int| 0 <= i < lista.len() implies lista[i] == fim[i] by {
                    assert(lista.push(c)[i] == fim[i]);
                }
            },
            Decisao::Desce(c) => {},
            _ => {
                lema_segue_so_acrescenta(extensao, adiante(pilha), lista);
            },
        }
    }
}

/// A directory that can be read takes nothing from the list and moves
/// nothing in it: what was found before stands first in what is found
/// afterwards.
pub proof fn lei_lista_so_cresce(p: Procura, itens: Seq<Item>)
    ensures
        lista_da(p).is_prefix_of(lista_da(buscado(p, Lido::Entradas(itens)))),
{
    match p {
        Procura::Aberta { extensao, pilha, pedido, lista } => {
            lema_segue_so_acrescenta(
                extensao,
                pilha.push(Patamar { caminho: pedido, resto: itens }),
                lista,
            );
        },
        _ => {},
    }
}

/// A search that was given up stays given up.
pub proof fn lema_busca_falha_permanece(c: Trilha, lidos: Seq<Lido>)
    ensures
        conduz_busca(Procura::Falhou(c), lidos) == Procura::Falhou(c),
    decreases lidos.len(),
{
    if lidos.len() > 0 {
        lema_busca_falha_permanece(c, lidos.drop_first());
    }
}

/// A directory that cannot be read ends the search at once, with the
/// directory named and nothing of what was found; whatever is read
/// afterwards changes nothing.
pub proof fn lei_busca_abortada(
    extensao: Seq<char>,
    pilha: Seq<Patamar>,
    pedido: Trilha,
    lista: Seq<Trilha>,
    lidos: Seq<Lido>,
)
    ensures
        conduz_busca(
            Procura::Aberta { extensao, pilha, pedido, lista },
            seq![Lido::Falha] + lidos,
        ) == Procura::Falhou(pedido),
{
    let todas = seq![Lido::Falha] + lidos;
    assert(todas.first() == Lido::Falha);
    lema_busca_falha_permanece(pedido, todas.drop_first());
}

/// The sizes that are known, added up; a file whose size could not be
/// had counts for nothing.
pub open spec fn soma_dos_tamanhos(tamanhos: Seq<Option<u64>>) -> nat
    decreases tamanhos.len(),
{
    if tamanhos.len() == 0 {
        0
    } else {
        soma_dos_tamanhos(tamanhos.drop_last()) + match tamanhos.last() {
            Some(t) => t as nat,
            None => 0,
        }
    }
}

/// A part of the list adds up to no more than the whole.
pub proof fn lema_soma_cresce(tamanhos: Seq<Option<u64>>, i: int)
    requires
        0 <= i <= tamanhos.len(),
    ensures
        soma_dos_tamanhos(tamanhos.take(i)) <= soma_dos_tamanhos(tamanhos),
    decreases tamanhos.len() - i,
{
    if i < tamanhos.len() {
        lema_soma_cresce(tamanhos, i + 1);
        assert(tamanhos.take(i + 1).drop_last() =~= tamanhos.take(i));
    } else {
        assert(tamanhos.take(i) =~= tamanhos);
    }
}

/// Adds up the sizes of the files of a list, given for each file its
/// size in bytes or nothing where the size could not be had.
pub fn total_de_bytes(lista: &Vec<Option<u64>>) -> (r: u64)
    requires
        soma_dos_tamanhos(lista@) <= u64::MAX,
    ensures
        r == soma_dos_tamanhos(lista@),
{
    let mut soma: u64 = 0;
    let mut i: usize = 0;
    assert(lista@.take(0) =~= Seq::<Option<u64>>::empty());
    while i < lista.len()
        invariant
            i <= lista.len(),
            soma == soma_dos_tamanhos(lista@.take(i as int)),
            soma_dos_tamanhos(lista@) <= u64::MAX,
        decreases lista.len() - i,
    {
        proof {
            assert(lista@.take(i as int + 1).drop_last() =~= lista@.take(i as int));
            lema_soma_cresce(lista@, i as int + 1);
        }
        match lista[i] {
            Some(t) => {
                soma = soma + t;
            },
            None => {},
        }
        i = i + 1;
    }
    assert(lista@.take(i as int) =~= lista@);
    soma
}

} // verus!
