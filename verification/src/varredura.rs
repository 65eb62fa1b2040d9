//! The walk over the registry cache: the directories two levels below its
//! root, one for each version of each package.
//!
//! The walk reads nothing itself. It names the directory it wants read,
//! takes what the reading gave, and goes on from there.

use vstd::prelude::*;
use crate::caminho::Caminho;
use crate::caminho::Trilha;

verus! {

/// What kind of thing a directory entry is, the entry itself and not what
/// it may point at.
#[derive(Clone, Copy, Debug, PartialEq, Eq, Structural)]
pub enum Tipo {
    Diretorio,
    Arquivo,
    Linque,
    Outro,
}

/// A directory entry as plain text.
pub struct Item {
    pub nome: Seq<char>,
    pub tipo: Tipo,
}

/// A directory entry: its name within the directory, and its kind.
#[derive(Debug, PartialEq, Eq)]
pub struct Entrada {
    pub nome: String,
    pub tipo: Tipo,
}

impl View for Entrada {
    type V = Item;

    open spec fn view(&self) -> Item {
        Item { nome: self.nome@, tipo: self.tipo }
    }
}

/// The entries of a list as plain text.
pub open spec fn itens_de(entradas: Seq<Entrada>) -> Seq<Item> {
    entradas.map_values(|e: Entrada| e@)
}

/// The paths of a list as plain text.
pub open spec fn trilhas(caminhos: Seq<Caminho>) -> Seq<Trilha> {
    caminhos.map_values(|c: Caminho| c@)
}

/// What reading a directory gave, as plain text.
pub enum Lido {
    Entradas(Seq<Item>),
    Falha,
}

/// What reading a directory gave: its entries, or nothing because it, or
/// one of its entries, could not be read.
#[derive(Debug, PartialEq, Eq)]
pub enum Leitura {
    Entradas(Vec<Entrada>),
    Falha,
}

impl View for Leitura {
    type V = Lido;

    open spec fn view(&self) -> Lido {
        match *self {
            Leitura::Entradas(es) => Lido::Entradas(itens_de(es@)),
            Leitura::Falha => Lido::Falha,
        }
    }
}

/// The paths of those entries of the directory `pai` that are directories
/// themselves, in the order of the entries. Links and everything else are
/// passed over.
pub open spec fn subdiretorios(pai: Trilha, itens: Seq<Item>) -> Seq<Trilha>
    decreases itens.len(),
{
    if itens.len() == 0 {
        Seq::empty()
    } else {
        let antes = subdiretorios(pai, itens.drop_last());
        if itens.last().tipo == Tipo::Diretorio {
            antes.push(pai.desce(itens.last().nome))
        } else {
            antes
        }
    }
}

/// Picks the directories among the entries of the directory `pai`.
pub fn so_diretorios(pai: &Caminho, entradas: &Vec<Entrada>) -> (r: Vec<Caminho>)
    ensures
        trilhas(r@) == subdiretorios(pai@, itens_de(entradas@)),
{
    let ghost itens = itens_de(entradas@);
    let mut r: Vec<Caminho> = Vec::new();
    let mut i: usize = 0;
    assert(itens.take(0) =~= Seq::<Item>::empty());
    assert(trilhas(r@) =~= Seq::<Trilha>::empty());
    while i < entradas.len()
        invariant
            i <= entradas.len(),
            itens == itens_de(entradas@),
            trilhas(r@) == subdiretorios(pai@, itens.take(i as int)),
        decreases entradas.len() - i,
    {
        let ghost antes = trilhas(r@);
        proof {
            let ate = itens.take(i as int + 1);
            assert(ate.drop_last() =~= itens.take(i as int));
            assert(ate.last() == entradas[i as int]@);
        }
        match entradas[i].tipo {
            Tipo::Diretorio => {
                r.push(pai.junta(entradas[i].nome.as_str()));
                assert(trilhas(r@) =~= antes.push(pai@.desce(entradas[i as int].nome@)));
            },
            _ => {},
        }
        i = i + 1;
    }
    assert(itens.take(i as int) =~= itens);
    r
}

/// Where a walk stands, as plain text.
pub enum Andamento {
    Raiz(Trilha),
    Ramos { pendentes: Seq<Trilha>, fontes: Seq<Trilha> },
    Falhou(Trilha),
}

/// Where a walk stands.
#[derive(Debug, PartialEq, Eq)]
pub enum Varredura {
    /// The root is still to be read.
    Raiz(Caminho),
    /// The root was read: `pendentes` are its directories still to be
    /// read, `fontes` the directories found in those read so far.
    Ramos { pendentes: Vec<Caminho>, fontes: Vec<Caminho> },
    /// The directory given could not be read, and the walk was given up.
    Falhou(Caminho),
}

impl View for Varredura {
    type V = Andamento;

    open spec fn view(&self) -> Andamento {
        match *self {
            Varredura::Raiz(r) => Andamento::Raiz(r@),
            Varredura::Ramos { pendentes, fontes } => Andamento::Ramos {
                pendentes: trilhas(pendentes@),
                fontes: trilhas(fontes@),
            },
            Varredura::Falhou(c) => Andamento::Falhou(c@),
        }
    }
}

/// The directory that the walk wants read next, if it wants any.
pub open spec fn pedido_de(a: Andamento) -> Option<Trilha> {
    match a {
        Andamento::Raiz(r) => Some(r),
        Andamento::Ramos { pendentes, fontes } => if pendentes.len() > 0 {
            Some(pendentes[0])
        } else {
            None
        },
        Andamento::Falhou(_) => None,
    }
}

/// Where the walk stands once the directory it wanted read gave `lido`.
/// A walk that wants nothing stays where it is.
pub open spec fn recebido(a: Andamento, lido: Lido) -> Andamento {
    match a {
        Andamento::Raiz(r) => match lido {
            Lido::Entradas(itens) => Andamento::Ramos {
                pendentes: subdiretorios(r, itens),
                fontes: Seq::empty(),
            },
            Lido::Falha => Andamento::Falhou(r),
        },
        Andamento::Ramos { pendentes, fontes } => if pendentes.len() > 0 {
            match lido {
                Lido::Entradas(itens) => Andamento::Ramos {
                    pendentes: pendentes.drop_first(),
                    fontes: fontes + subdiretorios(pendentes[0], itens),
                },
                Lido::Falha => Andamento::Falhou(pendentes[0]),
            }
        } else {
            a
        },
        Andamento::Falhou(_) => a,
    }
}

/// Starts the walk over the cache below `raiz`.
pub fn todos_diretorios_fontes(raiz: Caminho) -> (r: Varredura)
    ensures
        r@ == Andamento::Raiz(raiz@),
{
    Varredura::Raiz(raiz)
}

impl Varredura {
    /// The directory that the walk wants read next; none once the walk is
    /// over.
    pub fn pedido(&self) -> (r: Option<&Caminho>)
        ensures
            r is Some <==> pedido_de(self@) is Some,
            r matches Some(c) ==> Some(c@) == pedido_de(self@),
    {
        match self {
            Varredura::Raiz(raiz) => Some(raiz),
            Varredura::Ramos { pendentes, fontes } => {
                if pendentes.len() > 0 {
                    Some(&pendentes[0])
                } else {
                    None
                }
            },
            Varredura::Falhou(_) => None,
        }
    }

    /// Takes what reading the wanted directory gave.
    pub fn recebe(self, leitura: &Leitura) -> (r: Varredura)
        ensures
            r@ == recebido(self@, leitura@),
    {
        match self {
            Varredura::Raiz(raiz) => match leitura {
                Leitura::Entradas(entradas) => {
                    let pendentes = so_diretorios(&raiz, entradas);
                    let fontes: Vec<Caminho> = Vec::new();
                    assert(trilhas(fontes@) =~= Seq::<Trilha>::empty());
                    Varredura::Ramos { pendentes, fontes }
                },
                Leitura::Falha => Varredura::Falhou(raiz),
            },
            Varredura::Ramos { mut pendentes, mut fontes } => {
                if pendentes.len() > 0 {
                    let ghost antes = trilhas(pendentes@);
                    let ghost achadas = trilhas(fontes@);
                    let ramo = pendentes.remove(0);
                    assert(trilhas(pendentes@) =~= antes.drop_first());
                    assert(ramo@ == antes[0]);
                    match leitura {
                        Leitura::Entradas(entradas) => {
                            let mut novas = so_diretorios(&ramo, entradas);
                            let ghost mais = trilhas(novas@);
                            fontes.append(&mut novas);
                            assert(trilhas(fontes@) =~= achadas + mais);
                            Varredura::Ramos { pendentes, fontes }
                        },
                        Leitura::Falha => Varredura::Falhou(ramo),
                    }
                } else {
                    Varredura::Ramos { pendentes, fontes }
                }
            },
            Varredura::Falhou(c) => Varredura::Falhou(c),
        }
    }

    /// How the walk ended: with the source directories it found, or with
    /// the directory that could not be read. Nothing while the walk still
    /// wants a directory read.
    pub fn resultado(self) -> (r: Option<Result<Vec<Caminho>, Caminho>>)
        ensures
            r is None <==> pedido_de(self@) is Some,
            r matches Some(Ok(fontes)) ==> self@ == (Andamento::Ramos {
                pendentes: Seq::empty(),
                fontes: trilhas(fontes@),
            }),
            r matches Some(Err(c)) ==> self@ == Andamento::Falhou(c@),
    {
        match self {
            Varredura::Raiz(_) => None,
            Varredura::Ramos { pendentes, fontes } => {
                if pendentes.len() > 0 {
                    None
                } else {
                    assert(trilhas(pendentes@) =~= Seq::<Trilha>::empty());
                    Some(Ok(fontes))
                }
            },
            Varredura::Falhou(c) => Some(Err(c)),
        }
    }
}

/// Where the walk stands after the readings `lidos`, taken in turn.
pub open spec fn conduz(a: Andamento, lidos: Seq<Lido>) -> Andamento
    decreases lidos.len(),
{
    if lidos.len() == 0 {
        a
    } else {
        conduz(recebido(a, lidos.first()), lidos.drop_first())
    }
}

/// The directories found below the directories `ramos`, where reading
/// them gave `lidos`, one reading for each of them, in their order.
pub open spec fn fontes_dos_ramos(ramos: Seq<Trilha>, lidos: Seq<Lido>) -> Seq<Trilha>
    recommends
        ramos.len() == lidos.len(),
    decreases ramos.len(),
{
    if ramos.len() == 0 || lidos.len() == 0 {
        Seq::empty()
    } else {
        (match lidos.first() {
            Lido::Entradas(itens) => subdiretorios(ramos.first(), itens),
            Lido::Falha => Seq::empty(),
        }) + fontes_dos_ramos(ramos.drop_first(), lidos.drop_first())
    }
}

/// Whether every reading of `lidos` gave entries.
pub open spec fn todos_lidos(lidos: Seq<Lido>) -> bool {
    forall|i: int| 0 <= i < lidos.len() ==> #[trigger] lidos[i] is Entradas
}

/// A walk that has its root behind it and gets a reading for each
/// directory it still wants ends with all that those directories hold.
proof fn lema_ramos_completos(pendentes: Seq<Trilha>, fontes: Seq<Trilha>, lidos: Seq<Lido>)
    requires
        pendentes.len() == lidos.len(),
        todos_lidos(lidos),
    ensures
        conduz(Andamento::Ramos { pendentes, fontes }, lidos) == (Andamento::Ramos {
            pendentes: Seq::empty(),
            fontes: fontes + fontes_dos_ramos(pendentes, lidos),
        }),
    decreases lidos.len(),
{
    if lidos.len() == 0 {
        assert(pendentes =~= Seq::empty());
        assert(fontes + fontes_dos_ramos(pendentes, lidos) =~= fontes);
    } else {
        let itens = lidos.first()->Entradas_0;
        assert(lidos[0] is Entradas);
        let achadas = subdiretorios(pendentes[0], itens);
        let resto = lidos.drop_first();
        assert forall|i: int| 0 <= i < resto.len() implies #[trigger] resto[i] is Entradas by {
            assert(resto[i] == lidos[i + 1]);
        }
        lema_ramos_completos(pendentes.drop_first(), fontes + achadas, resto);
        assert((fontes + achadas) + fontes_dos_ramos(pendentes.drop_first(), resto) =~= fontes
            + fontes_dos_ramos(pendentes, lidos));
    }
}

/// A walk whose root and whose every directory below the root can be
/// read ends with the directories of the second level: those of the first
/// directory first, and within one directory in the order of its entries.
pub proof fn lei_varredura_completa(raiz: Trilha, itens: Seq<Item>, lidos: Seq<Lido>)
    requires
        lidos.len() == subdiretorios(raiz, itens).len(),
        todos_lidos(lidos),
    ensures
        conduz(Andamento::Raiz(raiz), seq![Lido::Entradas(itens)] + lidos) == (Andamento::Ramos {
            pendentes: Seq::empty(),
            fontes: fontes_dos_ramos(subdiretorios(raiz, itens), lidos),
        }),
{
    let tudo = seq![Lido::Entradas(itens)] + lidos;
    assert(tudo.first() == Lido::Entradas(itens));
    assert(tudo.drop_first() =~= lidos);
    let ramos = subdiretorios(raiz, itens);
    lema_ramos_completos(ramos, Seq::empty(), lidos);
    assert(Seq::<Trilha>::empty() + fontes_dos_ramos(ramos, lidos) =~= fontes_dos_ramos(
        ramos,
        lidos,
    ));
}

/// A walk that was given up stays given up.
pub proof fn lema_falha_permanece(c: Trilha, lidos: Seq<Lido>)
    ensures
        conduz(Andamento::Falhou(c), lidos) == Andamento::Falhou(c),
    decreases lidos.len(),
{
    if lidos.len() > 0 {
        lema_falha_permanece(c, lidos.drop_first());
    }
}

/// A walk that has its root behind it is given up at the first directory
/// that cannot be read.
proof fn lema_ramos_abortados(
    pendentes: Seq<Trilha>,
    fontes: Seq<Trilha>,
    lidos: Seq<Lido>,
    k: int,
)
    requires
        0 <= k < lidos.len(),
        k < pendentes.len(),
        lidos[k] is Falha,
        forall|i: int| 0 <= i < k ==> #[trigger] lidos[i] is Entradas,
    ensures
        conduz(Andamento::Ramos { pendentes, fontes }, lidos) == Andamento::Falhou(pendentes[k]),
    decreases lidos.len(),
{
    let resto = lidos.drop_first();
    if k == 0 {
        lema_falha_permanece(pendentes[0], resto);
    } else {
        assert(lidos[0] is Entradas);
        let itens = lidos.first()->Entradas_0;
        assert forall|i: int| 0 <= i < k - 1 implies #[trigger] resto[i] is Entradas by {
            assert(resto[i] == lidos[i + 1]);
        }
        assert(resto[k - 1] == lidos[k]);
        lema_ramos_abortados(
            pendentes.drop_first(),
            fontes + subdiretorios(pendentes[0], itens),
            resto,
            k - 1,
        );
    }
}

/// A walk whose root cannot be read is given up at once, and one whose
/// root can be read is given up at the first directory below it that
/// cannot: whatever was found before is lost, and whatever is read
/// afterwards changes nothing.
pub proof fn lei_varredura_abortada(raiz: Trilha, itens: Seq<Item>, lidos: Seq<Lido>, k: int)
    requires
        0 <= k < lidos.len(),
        k < subdiretorios(raiz, itens).len(),
        lidos[k] is Falha,
        forall|i: int| 0 <= i < k ==> #[trigger] lidos[i] is Entradas,
    ensures
        conduz(Andamento::Raiz(raiz), seq![Lido::Falha] + lidos) == Andamento::Falhou(raiz),
        conduz(Andamento::Raiz(raiz), seq![Lido::Entradas(itens)] + lidos) == Andamento::Falhou(
            subdiretorios(raiz, itens)[k],
        ),
{
    let mal = seq![Lido::Falha] + lidos;
    assert(mal.first() == Lido::Falha);
    lema_falha_permanece(raiz, mal.drop_first());
    let tudo = seq![Lido::Entradas(itens)] + lidos;
    assert(tudo.first() == Lido::Entradas(itens));
    assert(tudo.drop_first() =~= lidos);
    lema_ramos_abortados(subdiretorios(raiz, itens), Seq::empty(), lidos, k);
}

} // verus!
