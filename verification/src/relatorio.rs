//! The report: the register put in order of name and written out as
//! aligned lines.

use vstd::prelude::*;
use vstd::utf8::encode_utf8;
use crate::fontes::agregado;
use crate::fontes::mapa_de;
use crate::fontes::nome_de;
use crate::fontes::nomes_de;
use crate::fontes::nomes_distintos;
use crate::fontes::organizando_fontes_e_suas_versoes;
use crate::fontes::pares_modelo;
use crate::fontes::tem_nome;
use crate::fontes::tem_separador;
use crate::fontes::ErroFonte;
use crate::fontes::Itens;
use crate::fontes::Pacote;
use crate::fontes::Pares;
use crate::texto::algarismos;
use crate::texto::decimal;
use crate::texto::lema_bytes_cobrem_caracteres;
use crate::texto::lema_precede_estrito;
use crate::texto::lema_precede_total;
use crate::texto::lema_precede_transitivo;
use crate::texto::menor;
use crate::texto::pontos;
use crate::texto::precede;
use crate::texto::preenche;
use crate::texto::textos;

verus! {

/// Whether the names of the list ascend strictly.
pub open spec fn ordenado(itens: Itens) -> bool {
    forall|a: int, b: int| 0 <= a < b < itens.len() ==> precede(itens[a].0, itens[b].0)
}

/// Whether `itens` lists the packages of `mapa`, each once, in ascending
/// order of name.
pub open spec fn listagem_de(itens: Itens, mapa: Map<Seq<char>, Seq<Seq<char>>>) -> bool {
    ordenado(itens) && mapa_de(itens) == mapa
}

/// Whether `x` stands in `itens` at place `desde` or later.
pub open spec fn ocorre(itens: Itens, x: (Seq<char>, Seq<Seq<char>>), desde: int) -> bool {
    exists|j: int| desde <= j < itens.len() && #[trigger] itens[j] == x
}

/// Names that ascend strictly are distinct.
pub proof fn lema_ordenado_distinto(itens: Itens)
    requires
        ordenado(itens),
    ensures
        nomes_distintos(itens),
{
    assert forall|a: int, b: int| 0 <= a < b < itens.len() implies itens[a].0 != itens[b].0 by {
        lema_precede_estrito(itens[a].0, itens[b].0);
    }
}

/// Two lists with distinct names that hold the same packages make the
/// same map.
pub proof fn lema_mesmo_mapa(x: Itens, y: Itens)
    requires
        nomes_distintos(x),
        nomes_distintos(y),
        forall|i: int| 0 <= i < x.len() ==> ocorre(y, #[trigger] x[i], 0),
        forall|j: int| 0 <= j < y.len() ==> ocorre(x, #[trigger] y[j], 0),
    ensures
        mapa_de(x) == mapa_de(y),
{
    assert forall|n: Seq<char>| tem_nome(x, n) implies tem_nome(y, n) && mapa_de(x)[n] == mapa_de(
        y,
    )[n] by {
        let i = choose|i: int| 0 <= i < x.len() && #[trigger] x[i].0 == n;
        assert(ocorre(y, x[i], 0));
        let j = choose|j: int| 0 <= j < y.len() && #[trigger] y[j] == x[i];
        assert(y[j].0 == n);
        let j2 = choose|j2: int| 0 <= j2 < y.len() && #[trigger] y[j2].0 == n;
        assert(j2 == j);
    }
    assert forall|n: Seq<char>| tem_nome(y, n) implies tem_nome(x, n) by {
        let j = choose|j: int| 0 <= j < y.len() && #[trigger] y[j].0 == n;
        assert(ocorre(x, y[j], 0));
        let i = choose|i: int| 0 <= i < x.len() && #[trigger] x[i] == y[j];
        assert(x[i].0 == n);
    }
    assert(mapa_de(x) =~= mapa_de(y));
}

/// Puts the packages of the register in ascending order of name, by the
/// order in which strings compare.
pub fn ordena_repositorio(repositorio: Pacote) -> (r: Pares)
    ensures
        listagem_de(pares_modelo(r@), repositorio@),
{
    let mut fonte = repositorio.desfaz();
    let ghost orig = pares_modelo(fonte@);
    let mut saida: Pares = Vec::new();
    while fonte.len() > 0
        invariant
            nomes_distintos(orig),
            fonte.len() <= orig.len(),
            pares_modelo(fonte@) == orig.take(fonte.len() as int),
            ordenado(pares_modelo(saida@)),
            forall|i: int|
                0 <= i < saida.len() ==> ocorre(
                    orig,
                    #[trigger] pares_modelo(saida@)[i],
                    fonte.len() as int,
                ),
            forall|j: int|
                fonte.len() <= j < orig.len() ==> ocorre(pares_modelo(saida@), #[trigger] orig[j], 0),
        decreases fonte.len(),
    {
        let ghost antes = pares_modelo(saida@);
        let ghost m = fonte.len() - 1;
        let par = fonte.pop().unwrap();
        let ghost novo = orig[m];
        assert(pares_modelo(fonte@) =~= orig.take(fonte.len() as int));
        assert(orig.take(m + 1)[m] == novo);
        assert((par.0@, textos(par.1@)) == novo);
        let mut p: usize = 0;
        while p < saida.len() && menor(saida[p].0.as_str(), par.0.as_str())
            invariant
                p <= saida.len(),
                antes == pares_modelo(saida@),
                forall|q: int| 0 <= q < p ==> precede(antes[q].0, par.0@),
            decreases saida.len() - p,
        {
            p = p + 1;
        }
        proof {
            assert forall|q: int| p <= q < antes.len() implies precede(novo.0, antes[q].0) by {
                assert(ocorre(orig, antes[p as int], m + 1));
                let j = choose|j: int| m + 1 <= j < orig.len() && #[trigger] orig[j] == antes[p as int];
                assert(orig[m].0 != orig[j].0);
                lema_precede_total(novo.0, antes[p as int].0);
                if q > p {
                    lema_precede_transitivo(novo.0, antes[p as int].0, antes[q].0);
                }
            }
        }
        saida.insert(p, par);
        proof {
            let agora = pares_modelo(saida@);
            assert(agora =~= antes.insert(p as int, novo));
            assert forall|a: int, b: int| 0 <= a < b < agora.len() implies precede(
                agora[a].0,
                agora[b].0,
            ) by {
                if a < p && b > p {
                    lema_precede_transitivo(agora[a].0, novo.0, agora[b].0);
                }
            }
            assert forall|i: int| 0 <= i < agora.len() implies ocorre(
                orig,
                #[trigger] agora[i],
                m,
            ) by {
                if i < p {
                    assert(ocorre(orig, antes[i], m + 1));
                    let j = choose|j: int| m + 1 <= j < orig.len() && #[trigger] orig[j] == antes[i];
                    assert(orig[j] == agora[i]);
                } else if i == p {
                    assert(orig[m] == agora[i]);
                } else {
                    assert(ocorre(orig, antes[i - 1], m + 1));
                    let j = choose|j: int|
                        m + 1 <= j < orig.len() && #[trigger] orig[j] == antes[i - 1];
                    assert(orig[j] == agora[i]);
                }
            }
            assert forall|j: int| m <= j < orig.len() implies ocorre(agora, #[trigger] orig[j], 0) by {
                if j == m {
                    assert(agora[p as int] == orig[j]);
                } else {
                    assert(ocorre(antes, orig[j], 0));
                    let i = choose|i: int| 0 <= i < antes.len() && #[trigger] antes[i] == orig[j];
                    if i < p {
                        assert(agora[i] == orig[j]);
                    } else {
                        assert(agora[i + 1] == orig[j]);
                    }
                }
            }
        }
    }
    proof {
        let fim = pares_modelo(saida@);
        lema_ordenado_distinto(fim);
        assert forall|i: int| 0 <= i < fim.len() implies ocorre(orig, #[trigger] fim[i], 0) by {
            assert(ocorre(orig, fim[i], fonte.len() as int));
        }
        lema_mesmo_mapa(fim, orig);
    }
    saida
}

/// The names of a list of packages, in its order.
pub open spec fn nomes(itens: Itens) -> Seq<Seq<char>> {
    itens.map_values(|p: (Seq<char>, Seq<Seq<char>>)| p.0)
}

/// Without its last package, an ordered list holds the names it held
/// before but for the last one.
proof fn lema_sem_ultimo(x: Itens, n: Seq<char>)
    requires
        ordenado(x),
        x.len() > 0,
    ensures
        ordenado(x.drop_last()),
        tem_nome(x.drop_last(), n) <==> tem_nome(x, n) && n != x.last().0,
{
    let p = x.drop_last();
    assert forall|a: int, b: int| 0 <= a < b < p.len() implies precede(p[a].0, p[b].0) by {
        assert(p[a] == x[a] && p[b] == x[b]);
    }
    if tem_nome(p, n) {
        let i = choose|i: int| 0 <= i < p.len() && #[trigger] p[i].0 == n;
        assert(x[i].0 == n);
        lema_precede_estrito(x[i].0, x[x.len() - 1].0);
    }
    if tem_nome(x, n) && n != x.last().0 {
        let i = choose|i: int| 0 <= i < x.len() && #[trigger] x[i].0 == n;
        assert(p[i].0 == n);
    }
}

/// Two ordered lists that hold the same names hold them at the same
/// places.
pub proof fn lema_nomes_unicos(x: Itens, y: Itens)
    requires
        ordenado(x),
        ordenado(y),
        forall|n: Seq<char>| tem_nome(x, n) <==> tem_nome(y, n),
    ensures
        nomes(x) == nomes(y),
    decreases x.len(),
{
    if x.len() == 0 {
        if y.len() > 0 {
            assert(tem_nome(y, y[0].0));
        }
        assert(nomes(x) =~= nomes(y));
    } else {
        let xl = x.last();
        assert(x[x.len() - 1].0 == xl.0);
        assert(tem_nome(x, xl.0));
        let j = choose|j: int| 0 <= j < y.len() && #[trigger] y[j].0 == xl.0;
        let yl = y.last();
        assert(y[y.len() - 1].0 == yl.0);
        assert(tem_nome(y, yl.0));
        let i = choose|i: int| 0 <= i < x.len() && #[trigger] x[i].0 == yl.0;
        lema_precede_estrito(xl.0, yl.0);
        assert(xl.0 == yl.0);
        let px = x.drop_last();
        let py = y.drop_last();
        assert forall|n: Seq<char>| tem_nome(px, n) <==> tem_nome(py, n) by {
            lema_sem_ultimo(x, n);
            lema_sem_ultimo(y, n);
        }
        lema_sem_ultimo(x, xl.0);
        lema_sem_ultimo(y, xl.0);
        lema_nomes_unicos(px, py);
        assert(nomes(px).len() == nomes(py).len());
        assert forall|k: int| 0 <= k < x.len() implies nomes(x)[k] == nomes(y)[k] by {
            if k < px.len() {
                assert(nomes(px)[k] == nomes(py)[k]);
            }
        }
        assert(nomes(x) =~= nomes(y));
    }
}

/// A register has one listing only: the order of names leaves no choice.
pub proof fn lei_ordem_unica(x: Itens, y: Itens, mapa: Map<Seq<char>, Seq<Seq<char>>>)
    requires
        listagem_de(x, mapa),
        listagem_de(y, mapa),
    ensures
        x == y,
{
    assert forall|n: Seq<char>| tem_nome(x, n) <==> tem_nome(y, n) by {
        assert(mapa_de(x).contains_key(n) <==> mapa_de(y).contains_key(n));
    }
    lema_nomes_unicos(x, y);
    lema_ordenado_distinto(x);
    lema_ordenado_distinto(y);
    assert(nomes(x).len() == nomes(y).len());
    assert forall|k: int| 0 <= k < x.len() implies x[k] == y[k] by {
        assert(nomes(x)[k] == nomes(y)[k]);
        let n = x[k].0;
        assert(tem_nome(x, n));
        assert(tem_nome(y, n));
        let kx = choose|i: int| 0 <= i < x.len() && #[trigger] x[i].0 == n;
        let ky = choose|i: int| 0 <= i < y.len() && #[trigger] y[i].0 == n;
        assert(kx == k);
        assert(ky == k);
        assert(mapa_de(x)[n] == x[k].1);
        assert(mapa_de(y)[n] == y[k].1);
    }
    assert(x =~= y);
}

/// The order of the report does not depend on the order in which the
/// directories were found: two lists of directory names that hold the
/// same names, however arranged, give listings with the same package names
/// at the same places.
pub proof fn lei_ordem_independe_da_entrada(
    a: Seq<Seq<char>>,
    b: Seq<Seq<char>>,
    x: Itens,
    y: Itens,
)
    requires
        a.to_multiset() == b.to_multiset(),
        listagem_de(x, agregado(a)),
        listagem_de(y, agregado(b)),
    ensures
        nomes(x) == nomes(y),
{
    a.to_multiset_ensures();
    b.to_multiset_ensures();
    assert forall|n: Seq<char>| nomes_de(a).contains(n)
        <==> nomes_de(b).contains(n) by {
        if nomes_de(a).contains(n) {
            let i = choose|i: int|
                0 <= i < a.len() && #[trigger] nome_de(a[i]) == n;
            assert(a.contains(a[i]));
            assert(b.to_multiset().count(a[i]) > 0);
            assert(b.contains(a[i]));
            let j = choose|j: int| 0 <= j < b.len() && b[j] == a[i];
            assert(nome_de(b[j]) == n);
        }
        if nomes_de(b).contains(n) {
            let i = choose|i: int|
                0 <= i < b.len() && #[trigger] nome_de(b[i]) == n;
            assert(b.contains(b[i]));
            assert(a.to_multiset().count(b[i]) > 0);
            assert(a.contains(b[i]));
            let j = choose|j: int| 0 <= j < a.len() && a[j] == b[i];
            assert(nome_de(a[j]) == n);
        }
    }
    assert forall|n: Seq<char>| tem_nome(x, n) <==> tem_nome(y, n) by {
        assert(mapa_de(x).contains_key(n) <==> agregado(a).contains_key(n));
        assert(mapa_de(y).contains_key(n) <==> agregado(b).contains_key(n));
    }
    lema_nomes_unicos(x, y);
}

/// How many fill characters stand between the longest name and the
/// versions.
pub const MARGEM: usize = 4;

/// A name filled up to `largura` characters; a name that long or longer
/// stays as it is.
pub open spec fn coluna(nome: Seq<char>, largura: int) -> Seq<char> {
    nome + pontos(largura - nome.len())
}

/// The versions of one package, each behind a `v`, with a bar between
/// neighbours and none at the end.
pub open spec fn versoes_texto(versoes: Seq<Seq<char>>) -> Seq<char>
    decreases versoes.len(),
{
    if versoes.len() == 0 {
        Seq::empty()
    } else if versoes.len() == 1 {
        seq!['v'] + versoes[0]
    } else {
        versoes_texto(versoes.drop_last()) + seq![' ', '|', ' ', 'v'] + versoes.last()
    }
}

/// The line of one package: a tab, the name in its column, and the
/// versions between angle brackets.
pub open spec fn linha(nome: Seq<char>, versoes: Seq<Seq<char>>, largura: int) -> Seq<char> {
    seq!['\t'] + coluna(nome, largura) + seq![' ', '\u{27e8}'] + versoes_texto(versoes)
        + seq!['\u{27e9}']
}

/// The length in bytes of the longest name of the list.
pub open spec fn maior_nome(itens: Itens) -> nat
    decreases itens.len(),
{
    if itens.len() == 0 {
        0
    } else {
        let antes = maior_nome(itens.drop_last());
        let este = encode_utf8(itens.last().0).len();
        if este > antes {
            este
        } else {
            antes
        }
    }
}

/// What is said of a register without packages.
pub open spec fn sem_pacotes() -> Seq<char> {
    "\nnão há nada aqui!\n"@
}

/// The lines of the table: one for each package, in the order of the
/// list, every name filled to the width of the longest and the margin. A
/// list without packages gives the one line that says so.
pub open spec fn listagem(itens: Itens) -> Seq<Seq<char>> {
    if itens.len() == 0 {
        seq![sem_pacotes()]
    } else {
        Seq::new(
            itens.len(),
            |i: int| linha(itens[i].0, itens[i].1, maior_nome(itens) + MARGEM),
        )
    }
}

/// No name of the list is longer than the longest.
pub proof fn lema_maior_nome(itens: Itens, i: int)
    requires
        0 <= i < itens.len(),
    ensures
        encode_utf8(itens[i].0).len() <= maior_nome(itens),
        itens[i].0.len() <= maior_nome(itens),
    decreases itens.len(),
{
    lema_bytes_cobrem_caracteres(itens[i].0);
    if i < itens.len() - 1 {
        lema_maior_nome(itens.drop_last(), i);
    }
}

/// Writes the versions of one package at the end of `texto`.
fn escreve_versoes(texto: &mut String, versoes: &Vec<String>)
    ensures
        final(texto)@ == old(texto)@ + versoes_texto(textos(versoes@)),
{
    let ghost todas = textos(versoes@);
    let mut i: usize = 0;
    assert(todas.take(0) =~= Seq::<Seq<char>>::empty());
    assert(texto@ =~= old(texto)@ + versoes_texto(todas.take(0)));
    while i < versoes.len()
        invariant
            i <= versoes.len(),
            todas == textos(versoes@),
            texto@ == old(texto)@ + versoes_texto(todas.take(i as int)),
        decreases versoes.len() - i,
    {
        let ghost antes = texto@;
        proof {
            reveal_strlit("v");
            reveal_strlit(" | v");
        }
        if i == 0 {
            texto.append("v");
        } else {
            texto.append(" | v");
        }
        texto.append(versoes[i].as_str());
        proof {
            let ate = todas.take(i as int + 1);
            assert(ate.drop_last() =~= todas.take(i as int));
            assert(ate.last() == versoes[i as int]@);
            assert(" | v"@ =~= seq![' ', '|', ' ', 'v']);
            assert("v"@ =~= seq!['v']);
            if i == 0 {
                assert(ate[0] == versoes[0]@);
                assert(texto@ =~= old(texto)@ + versoes_texto(ate));
            } else {
                assert(texto@ =~= old(texto)@ + versoes_texto(ate));
            }
        }
        i = i + 1;
    }
    assert(todas.take(i as int) =~= todas);
}

/// Writes the line of one package, its name filled to a column of `maior`
/// characters and the margin.
pub fn linha_do_pacote(nome: &str, versoes: &Vec<String>, maior: usize) -> (r: String)
    ensures
        r@ == linha(nome@, textos(versoes@), maior + MARGEM),
{
    proof {
        reveal_strlit("\t");
        reveal_strlit(" \u{27e8}");
        reveal_strlit("\u{27e9}");
    }
    let mut r = String::from_str("\t");
    r.append(nome);
    let tamanho: usize = nome.unicode_len();
    let ghost sem_pontos = r@;
    if tamanho <= maior {
        preenche(&mut r, maior - tamanho);
        preenche(&mut r, MARGEM);
    } else if tamanho - maior < MARGEM {
        preenche(&mut r, MARGEM - (tamanho - maior));
    }
    assert(r@ =~= sem_pontos + pontos(maior + MARGEM - tamanho));
    r.append(" \u{27e8}");
    escreve_versoes(&mut r, versoes);
    r.append("\u{27e9}");
    assert(r@ =~= linha(nome@, textos(versoes@), maior + MARGEM));
    r
}

/// The length in bytes of the longest name among `pares`.
fn maior_comprimento(pares: &Pares) -> (r: usize)
    ensures
        r == maior_nome(pares_modelo(pares@)),
{
    let ghost itens = pares_modelo(pares@);
    let mut maior: usize = 0;
    let mut i: usize = 0;
    assert(itens.take(0) =~= Itens::empty());
    while i < pares.len()
        invariant
            i <= pares.len(),
            itens == pares_modelo(pares@),
            maior == maior_nome(itens.take(i as int)),
        decreases pares.len() - i,
    {
        let este: usize = pares[i].0.as_str().as_bytes().len();
        proof {
            let ate = itens.take(i as int + 1);
            assert(ate.drop_last() =~= itens.take(i as int));
            assert(ate.last().0 == pares[i as int].0@);
        }
        if este > maior {
            maior = este;
        }
        i = i + 1;
    }
    assert(itens.take(i as int) =~= itens);
    maior
}

/// Writes the table for a list of packages, in the order of the list.
pub fn linhas_da_listagem(pares: &Pares) -> (r: Vec<String>)
    ensures
        textos(r@) == listagem(pares_modelo(pares@)),
{
    let ghost itens = pares_modelo(pares@);
    let mut saida: Vec<String> = Vec::new();
    if pares.len() == 0 {
        saida.push(String::from_str("\nnão há nada aqui!\n"));
        assert(textos(saida@) =~= listagem(itens));
        return saida;
    }
    let maior: usize = maior_comprimento(pares);
    let mut i: usize = 0;
    while i < pares.len()
        invariant
            i <= pares.len(),
            itens == pares_modelo(pares@),
            maior == maior_nome(itens),
            saida.len() == i,
            forall|k: int|
                0 <= k < i ==> #[trigger] textos(saida@)[k] == linha(
                    itens[k].0,
                    itens[k].1,
                    maior + MARGEM,
                ),
        decreases pares.len() - i,
    {
        let texto = linha_do_pacote(pares[i].0.as_str(), &pares[i].1, maior);
        let ghost antes = textos(saida@);
        saida.push(texto);
        proof {
            let agora = textos(saida@);
            assert forall|k: int| 0 <= k < i + 1 implies #[trigger] agora[k] == linha(
                itens[k].0,
                itens[k].1,
                maior + MARGEM,
            ) by {
                if k < i {
                    assert(agora[k] == antes[k]);
                }
            }
        }
        i = i + 1;
    }
    assert(textos(saida@) =~= listagem(itens));
    saida
}

/// Whether `linhas` is the table of the register `mapa`: the lines of its
/// packages in ascending order of name.
pub open spec fn tabela_de(linhas: Seq<Seq<char>>, mapa: Map<Seq<char>, Seq<Seq<char>>>) -> bool {
    exists|itens: Itens| listagem_de(itens, mapa) && linhas == #[trigger] listagem(itens)
}

/// Writes the table of the register: its packages in ascending order of
/// name, one line each.
pub fn listagem_das_fontes(repositorio: Pacote) -> (r: Vec<String>)
    ensures
        tabela_de(textos(r@), repositorio@),
{
    let pares = ordena_repositorio(repositorio);
    linhas_da_listagem(&pares)
}

/// However long the names of a register are, each stands in a column as
/// wide as the longest of them and the margin.
pub proof fn lei_largura_da_coluna(itens: Itens, i: int)
    requires
        0 <= i < itens.len(),
    ensures
        coluna(itens[i].0, maior_nome(itens) + MARGEM).len() == maior_nome(itens) + MARGEM,
{
    lema_maior_nome(itens, i);
}

/// How many versions the packages of the list hold, all together.
pub open spec fn total_de_versoes(itens: Itens) -> nat
    decreases itens.len(),
{
    if itens.len() == 0 {
        0
    } else {
        total_de_versoes(itens.drop_last()) + itens.last().1.len()
    }
}

/// Counts the versions that the packages of the list hold, all together.
pub fn conta_versoes(pares: &Pares) -> (r: u128)
    ensures
        r == total_de_versoes(pares_modelo(pares@)),
{
    let ghost itens = pares_modelo(pares@);
    let mut soma: u128 = 0;
    let mut i: usize = 0;
    assert(itens.take(0) =~= Itens::empty());
    while i < pares.len()
        invariant
            i <= pares.len(),
            itens == pares_modelo(pares@),
            soma == total_de_versoes(itens.take(i as int)),
            soma <= i * usize::MAX,
        decreases pares.len() - i,
    {
        let este: usize = pares[i].1.len();
        proof {
            let ate = itens.take(i as int + 1);
            assert(ate.drop_last() =~= itens.take(i as int));
            assert(ate.last().1.len() == este);
            assert((i + 1) * usize::MAX <= u128::MAX) by (nonlinear_arith)
                requires
                    0 <= i < usize::MAX,
                    usize::MAX <= 0xffff_ffff_ffff_ffff,
                    u128::MAX == 0xffff_ffff_ffff_ffff_ffff_ffff_ffff_ffff,
            ;
            assert(i * usize::MAX + usize::MAX == (i + 1) * usize::MAX) by (nonlinear_arith);
        }
        soma = soma + este as u128;
        i = i + 1;
    }
    assert(itens.take(i as int) =~= itens);
    soma
}

/// The line above the table: how many distinct packages there are, and
/// how many versions in all.
pub open spec fn cabecalho(distintos: nat, total: nat) -> Seq<char> {
    "\nDepedências baixadas no computador("@ + algarismos(distintos) + " pacotes distintos, "@
        + algarismos(total) + " no total):"@
}

/// Writes the line above the table.
pub fn linha_de_cabecalho(distintos: usize, total: u128) -> (r: String)
    ensures
        r@ == cabecalho(distintos as nat, total as nat),
{
    let mut r = String::from_str("\nDepedências baixadas no computador(");
    r.append(decimal(distintos as u128).as_str());
    r.append(" pacotes distintos, ");
    r.append(decimal(total).as_str());
    r.append(" no total):");
    r
}

/// The report on a list of packages: the line of counts, then the table.
pub open spec fn relato(itens: Itens) -> Seq<Seq<char>> {
    seq![cabecalho(itens.len(), total_de_versoes(itens))] + listagem(itens)
}

/// Whether `linhas` is the report on the directory names `entradas`: the
/// counts and the table of their register, or, where there is no directory
/// at all, the one line that says so.
pub open spec fn relato_de(linhas: Seq<Seq<char>>, entradas: Seq<Seq<char>>) -> bool {
    if entradas.len() == 0 {
        linhas == seq![sem_pacotes()]
    } else {
        exists|itens: Itens|
            listagem_de(itens, agregado(entradas)) && linhas == #[trigger] relato(itens)
    }
}

/// Writes the whole report on the base names of the source directories:
/// the counts and the table, line by line. Without any directory the
/// report is the one line that says that nothing is there: no table, and
/// no error. A name without a separator makes the list unusable.
pub fn relatorio(diretorios: &Vec<String>) -> (r: Result<Vec<String>, ErroFonte>)
    ensures
        r is Err <==> exists|i: int|
            0 <= i < diretorios.len() && !tem_separador(
                #[trigger] textos(diretorios@)[i],
            ),
        r matches Err(e) ==> e == ErroFonte::NomeMalformado,
        r matches Ok(linhas) ==> relato_de(textos(linhas@), textos(diretorios@)),
        diretorios.len() == 0 ==> r is Ok && textos(r->Ok_0@) == seq![sem_pacotes()],
{
    let achado = match organizando_fontes_e_suas_versoes(diretorios) {
        Ok(achado) => achado,
        Err(e) => {
            return Err(e);
        },
    };
    match achado {
        None => {
            let mut saida: Vec<String> = Vec::new();
            saida.push(String::from_str("\nnão há nada aqui!\n"));
            assert(textos(saida@) =~= seq![sem_pacotes()]);
            Ok(saida)
        },
        Some(pacote) => {
            let pares = ordena_repositorio(pacote);
            let ghost itens = pares_modelo(pares@);
            let mut saida: Vec<String> = Vec::new();
            saida.push(linha_de_cabecalho(pares.len(), conta_versoes(&pares)));
            let mut tabela = linhas_da_listagem(&pares);
            let ghost topo = textos(saida@);
            let ghost resto = textos(tabela@);
            saida.append(&mut tabela);
            assert(textos(saida@) =~= topo + resto);
            assert(topo =~= seq![cabecalho(itens.len(), total_de_versoes(itens))]);
            assert(textos(saida@) == relato(itens));
            Ok(saida)
        },
    }
}

/// The rule under the report: sixty dashes between two line breaks.
pub open spec fn regua() -> Seq<char> {
    seq!['\n'] + Seq::new(60, |i: int| '-') + seq!['\n']
}

/// Writes the rule that closes the report.
pub fn barra() -> (r: String)
    ensures
        r@ == regua(),
{
    proof {
        reveal_strlit("\n");
        reveal_strlit("-");
    }
    let mut r = String::from_str("\n");
    let mut k: usize = 0;
    while k < 60
        invariant
            k <= 60,
            r@ == seq!['\n'] + Seq::new(k as nat, |i: int| '-'),
        decreases 60 - k,
    {
        proof {
            reveal_strlit("-");
        }
        r.append("-");
        k = k + 1;
        assert(r@ =~= seq!['\n'] + Seq::new(k as nat, |i: int| '-'));
    }
    proof {
        reveal_strlit("\n");
    }
    r.append("\n");
    assert(r@ =~= regua());
    r
}

} // verus!
