//! Names of cached source directories: `name-version`, parted at the last
//! separator, and gathered by name into a register of versions.

use vstd::prelude::*;
use crate::caminho::Caminho;
use crate::texto::textos;
use crate::texto::ultimo;
use crate::texto::lema_ultimo;
use crate::texto::lema_ultimo_achado;
use crate::texto::acha_ultimo;

verus! {

/// Why a directory name cannot be taken for a package's source.
#[derive(Clone, Copy, Debug, PartialEq, Eq, Structural)]
pub enum ErroFonte {
    /// The name holds no separator, so it parts into no name and version.
    NomeMalformado,
}

impl ErroFonte {
    /// The words for the error.
    pub open spec fn texto(self) -> Seq<char> {
        match self {
            ErroFonte::NomeMalformado => "nome de diretório de pacote malformado"@,
        }
    }

    /// Says the error in words.
    pub fn mensagem(&self) -> (r: String)
        ensures
            r@ == self.texto(),
    {
        match self {
            ErroFonte::NomeMalformado => String::from_str(
                "nome de diretório de pacote malformado",
            ),
        }
    }
}

/// The character between a package's name and its version.
pub open spec fn separador() -> char {
    '-'
}

/// Whether a directory name holds the separator at all.
pub open spec fn tem_separador(d: Seq<char>) -> bool {
    d.contains(separador())
}

/// The place of the last separator in `d`, or -1 where there is none.
pub open spec fn corte(d: Seq<char>) -> int {
    ultimo(d, separador())
}

/// What stands before the last separator.
pub open spec fn nome_de(d: Seq<char>) -> Seq<char>
    recommends
        tem_separador(d),
{
    d.take(corte(d))
}

/// What stands behind the last separator.
pub open spec fn versao_de(d: Seq<char>) -> Seq<char>
    recommends
        tem_separador(d),
{
    d.skip(corte(d) + 1)
}

/// A name and a version joined by the separator part again into that
/// name and that version, as long as the version holds no separator.
pub proof fn lei_separa_o_que_foi_unido(nome: Seq<char>, versao: Seq<char>)
    requires
        !versao.contains(separador()),
    ensures
        tem_separador(nome + seq![separador()] + versao),
        nome_de(nome + seq![separador()] + versao) == nome,
        versao_de(nome + seq![separador()] + versao) == versao,
{
    let d = nome + seq![separador()] + versao;
    let i = nome.len() as int;
    assert(d[i] == separador());
    assert forall|j: int| i < j < d.len() implies d[j] != separador() by {
        assert(d[j] == versao[j - i - 1]);
    }
    lema_ultimo_achado(d, separador(), i);
    assert(d.take(i) =~= nome);
    assert(d.skip(i + 1) =~= versao);
}

/// The two parts of a directory name, joined by the separator, are the
/// directory name again; and the version holds no separator.
pub proof fn lei_une_o_que_foi_separado(d: Seq<char>)
    requires
        tem_separador(d),
    ensures
        nome_de(d) + seq![separador()] + versao_de(d) == d,
        !versao_de(d).contains(separador()),
{
    lema_ultimo(d, separador());
    let i = corte(d);
    assert(nome_de(d) + seq![separador()] + versao_de(d) =~= d);
    if versao_de(d).contains(separador()) {
        let k = choose|k: int| 0 <= k < versao_de(d).len() && versao_de(d)[k] == separador();
        assert(d[i + 1 + k] == separador());
    }
}

/// Parts the base name of a source directory at its last separator into
/// the package's name and the version.
pub fn identificando_fonte<'a>(diretorio_nome: &'a str) -> (r: Result<
    (&'a str, &'a str),
    ErroFonte,
>)
    ensures
        r is Ok <==> tem_separador(diretorio_nome@),
        r matches Ok(par) ==> par.0@ == nome_de(diretorio_nome@) && par.1@ == versao_de(
            diretorio_nome@,
        ),
        r matches Err(e) ==> e == ErroFonte::NomeMalformado,
{
    match acha_ultimo(diretorio_nome, '-') {
        Some(i) => {
            proof {
                lema_ultimo(diretorio_nome@, separador());
            }
            let total: usize = diretorio_nome.unicode_len();
            let nome = diretorio_nome.substring_char(0, i);
            let versao = diretorio_nome.substring_char(i + 1, total);
            Ok((nome, versao))
        },
        None => Err(ErroFonte::NomeMalformado),
    }
}

/// One package with the versions seen of it, in the order they were seen.
pub type Par = (String, Vec<String>);

/// A list of packages.
pub type Pares = Vec<Par>;

/// A list of packages as plain text: of each its name and its versions.
pub type Itens = Seq<(Seq<char>, Seq<Seq<char>>)>;

/// A package as plain text: its name and its versions.
pub open spec fn par_modelo(p: Par) -> (Seq<char>, Seq<Seq<char>>) {
    (p.0@, textos(p.1@))
}

/// A list of packages as plain text.
pub open spec fn pares_modelo(ps: Seq<Par>) -> Itens {
    ps.map_values(|p: Par| par_modelo(p))
}

/// The package names that occur among the directory names `entradas`.
pub open spec fn nomes_de(entradas: Seq<Seq<char>>) -> Set<Seq<char>> {
    Set::new(
        |n: Seq<char>|
            exists|i: int| 0 <= i < entradas.len() && #[trigger] nome_de(entradas[i]) == n,
    )
}

/// The versions that `entradas` holds of the package `nome`: each one once,
/// at the place of its first occurrence.
pub open spec fn versoes_de(entradas: Seq<Seq<char>>, nome: Seq<char>) -> Seq<Seq<char>>
    decreases entradas.len(),
{
    if entradas.len() == 0 {
        Seq::empty()
    } else {
        let antes = versoes_de(entradas.drop_last(), nome);
        let d = entradas.last();
        if nome_de(d) == nome && !antes.contains(versao_de(d)) {
            antes.push(versao_de(d))
        } else {
            antes
        }
    }
}

/// The register that the directory names `entradas` make up: every name
/// that occurs, with its versions.
pub open spec fn agregado(entradas: Seq<Seq<char>>) -> Map<Seq<char>, Seq<Seq<char>>> {
    Map::new(|n: Seq<char>| nomes_de(entradas).contains(n), |n: Seq<char>| versoes_de(entradas, n))
}

/// Whether no two packages of a list bear one name.
pub open spec fn nomes_distintos(itens: Itens) -> bool {
    forall|a: int, b: int| 0 <= a < b < itens.len() ==> itens[a].0 != itens[b].0
}

/// Whether some package of the list bears the name `n`.
pub open spec fn tem_nome(itens: Itens, n: Seq<char>) -> bool {
    exists|i: int| 0 <= i < itens.len() && #[trigger] itens[i].0 == n
}

/// The list read as a map from name to versions.
pub open spec fn mapa_de(itens: Itens) -> Map<
    Seq<char>,
    Seq<Seq<char>>,
> {
    Map::new(
        |n: Seq<char>| tem_nome(itens, n),
        |n: Seq<char>| itens[choose|i: int| 0 <= i < itens.len() && #[trigger] itens[i].0 == n].1,
    )
}

/// A name that occurs nowhere has no versions.
pub proof fn lema_versoes_de_ausente(entradas: Seq<Seq<char>>, nome: Seq<char>)
    requires
        !nomes_de(entradas).contains(nome),
    ensures
        versoes_de(entradas, nome) == Seq::<Seq<char>>::empty(),
    decreases entradas.len(),
{
    if entradas.len() > 0 {
        let p = entradas.drop_last();
        assert forall|i: int| 0 <= i < p.len() implies #[trigger] nome_de(p[i]) != nome by {
            assert(p[i] == entradas[i]);
            assert(nome_de(entradas[i]) != nome);
        }
        lema_versoes_de_ausente(p, nome);
        assert(nome_de(entradas[entradas.len() - 1]) != nome);
    }
}

/// No version stands twice among the versions of a name, however often
/// the directory names repeat it.
pub proof fn lei_versoes_sem_repeticao(entradas: Seq<Seq<char>>, nome: Seq<char>)
    ensures
        versoes_de(entradas, nome).no_duplicates(),
    decreases entradas.len(),
{
    if entradas.len() > 0 {
        lei_versoes_sem_repeticao(entradas.drop_last(), nome);
    }
}

/// A directory that is found twice counts once: its package has that one
/// version and no second.
pub proof fn lei_diretorio_repetido(d: Seq<char>)
    ensures
        agregado(seq![d, d]).contains_key(nome_de(d)),
        agregado(seq![d, d])[nome_de(d)] == seq![versao_de(d)],
        agregado(seq![d, d])[nome_de(d)].len() == 1,
{
    let dois = seq![d, d];
    let um = dois.drop_last();
    assert(um =~= seq![d]);
    assert(um.drop_last() =~= Seq::<Seq<char>>::empty());
    assert(versoes_de(um.drop_last(), nome_de(d)) =~= Seq::<Seq<char>>::empty());
    assert(versoes_de(um, nome_de(d)) =~= seq![versao_de(d)]);
    assert(seq![versao_de(d)][0] == versao_de(d));
    assert(versoes_de(dois, nome_de(d)) =~= seq![versao_de(d)]);
    assert(nome_de(dois[0]) == nome_de(d));
}

/// Every name that occurs has at least one version.
pub proof fn lema_versoes_de_presente(entradas: Seq<Seq<char>>, nome: Seq<char>)
    requires
        nomes_de(entradas).contains(nome),
    ensures
        versoes_de(entradas, nome).len() > 0,
    decreases entradas.len(),
{
    let i = choose|i: int| 0 <= i < entradas.len() && #[trigger] nome_de(entradas[i]) == nome;
    let p = entradas.drop_last();
    if i < p.len() {
        assert(nome_de(p[i]) == nome);
        lema_versoes_de_presente(p, nome);
    } else {
        let antes = versoes_de(p, nome);
        if antes.contains(versao_de(entradas.last())) {
            assert(antes.len() > 0);
        }
    }
}

/// The register of cached packages: each name once, with the versions seen
/// of it, none of them twice.
#[derive(Debug)]
pub struct Pacote {
    pares: Pares,
}

impl View for Pacote {
    type V = Map<Seq<char>, Seq<Seq<char>>>;

    closed spec fn view(&self) -> Map<Seq<char>, Seq<Seq<char>>> {
        mapa_de(self.itens())
    }
}

impl Pacote {
    /// The packages in the order in which their names were first seen.
    pub closed spec fn itens(&self) -> Itens {
        pares_modelo(self.pares@)
    }

    #[verifier::type_invariant]
    closed spec fn coerente(&self) -> bool {
        &&& nomes_distintos(self.itens())
        &&& forall|i: int|
            0 <= i < self.itens().len() ==> (#[trigger] self.itens()[i]).1.no_duplicates()
                && self.itens()[i].1.len() > 0
    }
}

impl Pacote {
    /// Hands the packages out as a list, in no order that callers may
    /// count on.
    pub fn desfaz(self) -> (r: Pares)
        ensures
            nomes_distintos(pares_modelo(r@)),
            mapa_de(pares_modelo(r@)) == self@,
            forall|i: int|
                0 <= i < r.len() ==> (#[trigger] pares_modelo(r@)[i]).1.no_duplicates()
                    && pares_modelo(r@)[i].1.len() > 0,
    {
        proof {
            use_type_invariant(&self);
        }
        self.pares
    }

    /// How many distinct package names the register holds.
    pub fn len(&self) -> (r: usize)
        ensures
            self@.dom().finite(),
            r == self@.len(),
    {
        proof {
            use_type_invariant(self);
            lema_dominio(self.itens());
        }
        self.pares.len()
    }

    /// Whether the register holds no package.
    pub fn is_empty(&self) -> (r: bool)
        ensures
            r == (self@ == Map::<Seq<char>, Seq<Seq<char>>>::empty()),
    {
        proof {
            use_type_invariant(self);
            let itens = self.itens();
            if itens.len() > 0 {
                assert(tem_nome(itens, itens[0].0));
                assert(self@.contains_key(itens[0].0));
            } else {
                assert(self@ =~= Map::<Seq<char>, Seq<Seq<char>>>::empty());
            }
        }
        self.pares.len() == 0
    }

    /// The versions held of the package `nome`, if the register knows it.
    pub fn versoes(&self, nome: &str) -> (r: Option<&Vec<String>>)
        ensures
            r is Some <==> self@.contains_key(nome@),
            r matches Some(v) ==> textos(v@) == self@[nome@],
    {
        proof {
            use_type_invariant(self);
        }
        let chave = String::from_str(nome);
        match posicao(&self.pares, &chave) {
            Some(k) => {
                proof {
                    let itens = self.itens();
                    assert(itens[k as int].0 == nome@);
                    assert(tem_nome(itens, nome@));
                }
                Some(&self.pares[k].1)
            },
            None => None,
        }
    }
}

/// A list of packages with distinct names holds as many packages as its
/// map holds names.
pub proof fn lema_dominio(itens: Itens)
    requires
        nomes_distintos(itens),
    ensures
        mapa_de(itens).dom().finite(),
        mapa_de(itens).dom().len() == itens.len(),
    decreases itens.len(),
{
    if itens.len() == 0 {
        assert(mapa_de(itens).dom() =~= Set::<Seq<char>>::empty());
    } else {
        let p = itens.drop_last();
        let u = itens.last();
        lema_dominio(p);
        assert forall|n: Seq<char>| mapa_de(itens).dom().contains(n) <==> mapa_de(p).dom().insert(
            u.0,
        ).contains(n) by {
            if tem_nome(itens, n) {
                let i = choose|i: int| 0 <= i < itens.len() && #[trigger] itens[i].0 == n;
                if i < p.len() {
                    assert(p[i].0 == n);
                }
            }
            if tem_nome(p, n) {
                let i = choose|i: int| 0 <= i < p.len() && #[trigger] p[i].0 == n;
                assert(itens[i].0 == n);
            }
            if n == u.0 {
                assert(itens[itens.len() - 1].0 == n);
            }
        }
        assert(mapa_de(itens).dom() =~= mapa_de(p).dom().insert(u.0));
        if tem_nome(p, u.0) {
            let i = choose|i: int| 0 <= i < p.len() && #[trigger] p[i].0 == u.0;
            assert(itens[i].0 == itens[itens.len() - 1].0);
        }
    }
}

/// Whether the text `v` stands in `lista`.
fn contem(lista: &Vec<String>, v: &String) -> (r: bool)
    ensures
        r == textos(lista@).contains(v@),
{
    let mut k: usize = 0;
    while k < lista.len()
        invariant
            k <= lista.len(),
            forall|j: int| 0 <= j < k ==> textos(lista@)[j] != v@,
        decreases lista.len() - k,
    {
        if lista[k] == *v {
            assert(textos(lista@)[k as int] == v@);
            return true;
        }
        k = k + 1;
    }
    false
}

/// The place of the package named `nome` in `pares`, if it is there.
fn posicao(pares: &Pares, nome: &String) -> (r: Option<usize>)
    ensures
        r matches Some(k) ==> k < pares.len() && pares[k as int].0@ == nome@,
        r is None ==> !tem_nome(pares_modelo(pares@), nome@),
{
    let mut k: usize = 0;
    while k < pares.len()
        invariant
            k <= pares.len(),
            forall|j: int| 0 <= j < k ==> pares_modelo(pares@)[j].0 != nome@,
        decreases pares.len() - k,
    {
        if pares[k].0 == *nome {
            return Some(k);
        }
        k = k + 1;
    }
    None
}

/// Whether the list `itens` holds the register of the directory names
/// `entradas`: each name that occurs once, with its versions.
pub open spec fn registra(itens: Itens, entradas: Seq<Seq<char>>) -> bool {
    &&& nomes_distintos(itens)
    &&& forall|k: int|
        0 <= k < itens.len() ==> nomes_de(entradas).contains((#[trigger] itens[k]).0)
            && itens[k].1 == versoes_de(entradas, itens[k].0)
    &&& forall|n: Seq<char>| nomes_de(entradas).contains(n) ==> tem_nome(itens, n)
}

/// A list that holds the register of some directory names reads as the
/// map that they make up, and holds no version twice and no name without
/// a version.
pub proof fn lema_registra(itens: Itens, entradas: Seq<Seq<char>>)
    requires
        registra(itens, entradas),
    ensures
        mapa_de(itens) == agregado(entradas),
        forall|k: int|
            0 <= k < itens.len() ==> (#[trigger] itens[k]).1.no_duplicates() && itens[k].1.len()
                > 0,
{
    assert forall|k: int| 0 <= k < itens.len() implies (#[trigger] itens[k]).1.no_duplicates()
        && itens[k].1.len() > 0 by {
        lei_versoes_sem_repeticao(entradas, itens[k].0);
        lema_versoes_de_presente(entradas, itens[k].0);
    }
    assert forall|n: Seq<char>| tem_nome(itens, n) implies nomes_de(entradas).contains(n)
        && #[trigger] mapa_de(itens)[n] == versoes_de(entradas, n) by {
        let j = choose|j: int| 0 <= j < itens.len() && #[trigger] itens[j].0 == n;
    }
    assert(mapa_de(itens) =~= agregado(entradas));
}

/// One directory name more adds its package name to those that occur,
/// and no other.
proof fn lema_nomes_de_mais_um(antes: Seq<Seq<char>>, d: Seq<char>, n: Seq<char>)
    ensures
        nomes_de(antes.push(d)).contains(n) <==> n == nome_de(d) || nomes_de(antes).contains(n),
{
    let agora = antes.push(d);
    if nomes_de(agora).contains(n) {
        let j = choose|j: int| 0 <= j < agora.len() && #[trigger] nome_de(agora[j]) == n;
        if j < antes.len() {
            assert(nome_de(antes[j]) == n);
        }
    }
    if nomes_de(antes).contains(n) {
        let j = choose|j: int| 0 <= j < antes.len() && #[trigger] nome_de(antes[j]) == n;
        assert(nome_de(agora[j]) == n);
    }
    assert(nome_de(agora[antes.len() as int]) == nome_de(d));
}

/// A list that keeps the names of another, each at its place, and holds
/// the name of one directory more, holds every name that occurs once that
/// directory is counted in.
proof fn lema_nomes_cobertos(velhos: Itens, novos: Itens, antes: Seq<Seq<char>>, d: Seq<char>, k: int)
    requires
        tem_separador(d),
        forall|n: Seq<char>| nomes_de(antes).contains(n) ==> tem_nome(velhos, n),
        velhos.len() <= novos.len(),
        forall|j: int| 0 <= j < velhos.len() ==> (#[trigger] novos[j]).0 == velhos[j].0,
        0 <= k < novos.len(),
        novos[k].0 == nome_de(d),
    ensures
        forall|n: Seq<char>| nomes_de(antes.push(d)).contains(n) ==> tem_nome(novos, n),
{
    assert forall|n: Seq<char>| nomes_de(antes.push(d)).contains(n) implies tem_nome(novos, n) by {
        lema_nomes_de_mais_um(antes, d, n);
        if n == nome_de(d) {
            assert(novos[k].0 == n);
        } else {
            assert(tem_nome(velhos, n));
            let j = choose|j: int| 0 <= j < velhos.len() && #[trigger] velhos[j].0 == n;
            assert(novos[j].0 == velhos[j].0);
        }
    }
}

/// Takes the directory name `d`, parted into `nome` and `versao`, into the
/// register of the directory names `antes`: a name not yet there comes in
/// with this one version, a name already there gets the version unless it
/// has it.
fn inclui(
    pares: &mut Pares,
    nome: String,
    versao: String,
    Ghost(antes): Ghost<Seq<Seq<char>>>,
    Ghost(d): Ghost<Seq<char>>,
)
    requires
        registra(pares_modelo(old(pares)@), antes),
        tem_separador(d),
        nome@ == nome_de(d),
        versao@ == versao_de(d),
    ensures
        registra(pares_modelo(final(pares)@), antes.push(d)),
{
    let ghost agora = antes.push(d);
    let ghost velhos = pares_modelo(pares@);
    proof {
        assert(agora.drop_last() =~= antes);
        lema_nomes_de_mais_um(antes, d, nome@);
    }
    match posicao(pares, &nome) {
        Some(k) => {
            if !contem(&pares[k].1, &versao) {
                pares[k].1.push(versao);
                proof {
                    let novos = pares_modelo(pares@);
                    assert(novos[k as int].1 =~= velhos[k as int].1.push(versao@));
                    assert(novos[k as int].0 == velhos[k as int].0);
                    assert forall|j: int| 0 <= j < novos.len() && j != k implies novos[j]
                        == velhos[j] by {}
                }
            }
            proof {
                let novos = pares_modelo(pares@);
                assert forall|j: int| 0 <= j < novos.len() implies nomes_de(agora).contains(
                    (#[trigger] novos[j]).0,
                ) && novos[j].1 == versoes_de(agora, novos[j].0) by {
                    assert(novos[j].0 == velhos[j].0);
                    assert(velhos[j].1 == versoes_de(antes, velhos[j].0));
                    lema_nomes_de_mais_um(antes, d, velhos[j].0);
                    if j != k {
                        assert(velhos[j].0 != velhos[k as int].0);
                        assert(novos[j] == velhos[j]);
                    }
                }
                lema_nomes_cobertos(velhos, novos, antes, d, k as int);
            }
        },
        None => {
            let mut versoes: Vec<String> = Vec::new();
            versoes.push(versao);
            pares.push((nome, versoes));
            proof {
                let novos = pares_modelo(pares@);
                let ultimo = novos.len() - 1;
                lema_versoes_de_ausente(antes, nome@);
                assert(novos[ultimo].1 =~= Seq::<Seq<char>>::empty().push(versao@));
                assert forall|j: int| 0 <= j < velhos.len() implies novos[j] == velhos[j] by {}
                assert forall|j: int| 0 <= j < novos.len() implies nomes_de(agora).contains(
                    (#[trigger] novos[j]).0,
                ) && novos[j].1 == versoes_de(agora, novos[j].0) by {
                    if j < velhos.len() {
                        assert(velhos[j].1 == versoes_de(antes, velhos[j].0));
                        assert(tem_nome(velhos, velhos[j].0));
                        lema_nomes_de_mais_um(antes, d, velhos[j].0);
                    }
                }
                lema_nomes_cobertos(velhos, novos, antes, d, ultimo);
                assert forall|a: int, b: int| 0 <= a < b < novos.len() implies novos[a].0
                    != novos[b].0 by {
                    if b == ultimo {
                        assert(tem_nome(velhos, velhos[a].0));
                    }
                }
            }
        },
    }
}

/// Gathers the base names of the source directories into a register: each
/// package name with the versions found of it, a repeated version counted
/// once.
///
/// An empty list gives no register at all, which is no error. A name
/// without a separator makes the whole list unusable.
pub fn organizando_fontes_e_suas_versoes(diretorios: &Vec<String>) -> (r: Result<
    Option<Pacote>,
    ErroFonte,
>)
    ensures
        r is Err <==> exists|i: int|
            0 <= i < diretorios.len() && !tem_separador(#[trigger] textos(diretorios@)[i]),
        r matches Err(e) ==> e == ErroFonte::NomeMalformado,
        r matches Ok(achado) ==> (achado is None <==> diretorios.len() == 0),
        r matches Ok(Some(pacote)) ==> pacote@ == agregado(textos(diretorios@)),
{
    let ghost entradas = textos(diretorios@);
    if diretorios.is_empty() {
        return Ok(None);
    }
    let mut pares: Pares = Vec::with_capacity(diretorios.len());
    let mut i: usize = 0;
    while i < diretorios.len()
        invariant
            i <= diretorios.len(),
            entradas == textos(diretorios@),
            forall|j: int| 0 <= j < i ==> tem_separador(#[trigger] entradas[j]),
            registra(pares_modelo(pares@), entradas.take(i as int)),
        decreases diretorios.len() - i,
    {
        assert(entradas[i as int] == diretorios[i as int]@);
        let (nome, versao) = match identificando_fonte(diretorios[i].as_str()) {
            Ok(par) => par,
            Err(e) => {
                return Err(e);
            },
        };
        inclui(
            &mut pares,
            String::from_str(nome),
            String::from_str(versao),
            Ghost(entradas.take(i as int)),
            Ghost(entradas[i as int]),
        );
        assert(entradas.take(i as int).push(entradas[i as int]) =~= entradas.take(i as int + 1));
        i = i + 1;
    }
    proof {
        assert(entradas.take(i as int) =~= entradas);
        lema_registra(pares_modelo(pares@), entradas);
    }
    Ok(Some(Pacote { pares }))
}

/// The base name of every source directory of `fontes`, in their order:
/// what `organizando_fontes_e_suas_versoes` takes. A path without any
/// part names nothing and makes the list unusable.
pub fn nomes_dos_diretorios(fontes: &Vec<Caminho>) -> (r: Result<Vec<String>, ErroFonte>)
    ensures
        r is Err <==> exists|i: int| 0 <= i < fontes.len() && (#[trigger] fontes[i])@.partes.len() == 0,
        r matches Err(e) ==> e == ErroFonte::NomeMalformado,
        r matches Ok(nomes) ==> nomes.len() == fontes.len() && forall|i: int|
            0 <= i < fontes.len() ==> (#[trigger] nomes[i])@ == fontes[i]@.partes.last(),
{
    let mut nomes: Vec<String> = Vec::with_capacity(fontes.len());
    let mut i: usize = 0;
    while i < fontes.len()
        invariant
            i <= fontes.len(),
            nomes.len() == i,
            forall|k: int| 0 <= k < i ==> (#[trigger] fontes[k])@.partes.len() > 0,
            forall|k: int| 0 <= k < i ==> (#[trigger] nomes[k])@ == fontes[k]@.partes.last(),
        decreases fontes.len() - i,
    {
        match fontes[i].nome_base() {
            Some(nome) => {
                nomes.push(nome.clone());
            },
            None => {
                return Err(ErroFonte::NomeMalformado);
            },
        }
        i = i + 1;
    }
    Ok(nomes)
}

} // verus!
