//! Paths as the library sees them: an anchor and the parts below it.

use vstd::prelude::*;
use crate::texto::acha_ultimo;
use crate::texto::lema_ultimo;
use crate::texto::textos;
use crate::texto::ultimo;

verus! {

/// The character that parts the parts of a path written as text.
pub open spec fn barra_de_partes() -> char {
    '/'
}

/// The parts that a text names: what stands between its separators, in
/// their order. Between two separators that touch, before the first and
/// behind the last there is no part.
pub open spec fn pedacos(s: Seq<char>) -> Seq<Seq<char>>
    decreases s.len(),
{
    let i = ultimo(s, barra_de_partes());
    if s.len() == 0 {
        Seq::empty()
    } else if i < 0 || i >= s.len() {
        seq![s]
    } else if i == s.len() - 1 {
        pedacos(s.take(i))
    } else {
        pedacos(s.take(i)).push(s.skip(i + 1))
    }
}

/// Takes a text apart into the parts it names.
pub fn pedacos_de(s: &str) -> (r: Vec<String>)
    ensures
        textos(r@) == pedacos(s@),
    decreases s@.len(),
{
    proof {
        lema_ultimo(s@, barra_de_partes());
    }
    let total: usize = s.unicode_len();
    match acha_ultimo(s, '/') {
        None => {
            let mut r: Vec<String> = Vec::new();
            if total > 0 {
                r.push(String::from_str(s));
                assert(textos(r@) =~= seq![s@]);
            } else {
                assert(textos(r@) =~= Seq::<Seq<char>>::empty());
            }
            r
        },
        Some(i) => {
            let mut r = pedacos_de(s.substring_char(0, i));
            if i + 1 < total {
                let ghost antes = textos(r@);
                r.push(String::from_str(s.substring_char(i + 1, total)));
                assert(textos(r@) =~= antes.push(s@.skip(i as int + 1)));
            }
            r
        },
    }
}

/// A path as plain text: what anchors it (a root or a drive, empty for a
/// relative path) and the parts that lead down from there.
pub struct Trilha {
    pub raiz: Seq<char>,
    pub partes: Seq<Seq<char>>,
}

impl Trilha {
    /// The path one level up; a path without parts has no level above it
    /// and stays.
    pub open spec fn sobe(self) -> Trilha {
        if self.partes.len() == 0 {
            self
        } else {
            Trilha { raiz: self.raiz, partes: self.partes.drop_last() }
        }
    }

    /// The path one level down, through `parte`.
    pub open spec fn desce(self, parte: Seq<char>) -> Trilha {
        Trilha { raiz: self.raiz, partes: self.partes.push(parte) }
    }

    /// The path that the text `texto` leads to from this one, down
    /// through each part that it names. The text is always taken from
    /// this path on, also where it starts with a separator.
    pub open spec fn desce_por(self, texto: Seq<char>) -> Trilha {
        Trilha { raiz: self.raiz, partes: self.partes + pedacos(texto) }
    }

    /// Whether the path has an anchor, and so means the same from
    /// everywhere.
    pub open spec fn ancorada(self) -> bool {
        self.raiz.len() > 0
    }

    /// What a symbolic link at this path points at, where the link holds
    /// `alvo`: `alvo` itself where it has an anchor, and otherwise `alvo`
    /// taken from the directory in which the link stands.
    pub open spec fn aponta(self, alvo: Trilha) -> Trilha {
        if alvo.ancorada() {
            alvo
        } else {
            Trilha { raiz: self.raiz, partes: self.sobe().partes + alvo.partes }
        }
    }
}

/// A path: what anchors it and the parts that lead down from there.
#[derive(Debug, PartialEq, Eq)]
pub struct Caminho {
    pub raiz: String,
    pub partes: Vec<String>,
}

impl View for Caminho {
    type V = Trilha;

    open spec fn view(&self) -> Trilha {
        Trilha { raiz: self.raiz@, partes: textos(self.partes@) }
    }
}

/// Copies a list of texts.
pub fn copia_textos(lista: &Vec<String>) -> (r: Vec<String>)
    ensures
        textos(r@) == textos(lista@),
{
    let mut r: Vec<String> = Vec::with_capacity(lista.len());
    let mut i: usize = 0;
    while i < lista.len()
        invariant
            i <= lista.len(),
            r.len() == i,
            forall|k: int| 0 <= k < i ==> r[k]@ == lista[k]@,
        decreases lista.len() - i,
    {
        r.push(lista[i].clone());
        i = i + 1;
    }
    assert(textos(r@) =~= textos(lista@));
    r
}

impl Caminho {
    /// The path that is nothing but the anchor `raiz`.
    pub fn novo(raiz: &str) -> (r: Caminho)
        ensures
            r@ == (Trilha { raiz: raiz@, partes: Seq::empty() }),
    {
        let r = Caminho { raiz: String::from_str(raiz), partes: Vec::new() };
        assert(r@.partes =~= Seq::empty());
        r
    }

    /// A copy of the path.
    pub fn copia(&self) -> (r: Caminho)
        ensures
            r@ == self@,
    {
        Caminho { raiz: self.raiz.clone(), partes: copia_textos(&self.partes) }
    }

    /// Goes one level up. Says whether there was a level to leave.
    pub fn sobe(&mut self) -> (r: bool)
        ensures
            final(self)@ == old(self)@.sobe(),
            r == (old(self)@.partes.len() > 0),
    {
        match self.partes.pop() {
            Some(_) => {
                assert(textos(self.partes@) =~= textos(old(self).partes@).drop_last());
                true
            },
            None => false,
        }
    }

    /// Goes one level down, through `parte`.
    pub fn desce(&mut self, parte: &str)
        ensures
            final(self)@ == old(self)@.desce(parte@),
    {
        self.partes.push(String::from_str(parte));
        assert(textos(self.partes@) =~= textos(old(self).partes@).push(parte@));
    }

    /// Goes down through each part that the text `texto` names.
    pub fn desce_por(&mut self, texto: &str)
        ensures
            final(self)@ == old(self)@.desce_por(texto@),
    {
        let mut mais = pedacos_de(texto);
        let ghost antes = textos(self.partes@);
        let ghost novas = textos(mais@);
        self.partes.append(&mut mais);
        assert(textos(self.partes@) =~= antes + novas);
    }

    /// The path one level below this one, through `parte`.
    pub fn junta(&self, parte: &str) -> (r: Caminho)
        ensures
            r@ == self@.desce(parte@),
    {
        let mut r = self.copia();
        r.desce(parte);
        r
    }

    /// What a symbolic link at this path points at, where the link holds
    /// `alvo`.
    pub fn aponta(&self, alvo: Caminho) -> (r: Caminho)
        ensures
            r@ == self@.aponta(alvo@),
    {
        if !alvo.raiz.as_str().is_empty() {
            alvo
        } else {
            let mut r = self.copia();
            r.sobe();
            let mut partes = alvo.partes;
            let ghost antes = textos(r.partes@);
            let ghost mais = textos(partes@);
            r.partes.append(&mut partes);
            assert(textos(r.partes@) =~= antes + mais);
            r
        }
    }

    /// The last part of the path: the name of what it leads to.
    pub fn nome_base(&self) -> (r: Option<&String>)
        ensures
            r is Some <==> self@.partes.len() > 0,
            r matches Some(nome) ==> nome@ == self@.partes.last(),
    {
        if self.partes.len() == 0 {
            None
        } else {
            Some(&self.partes[self.partes.len() - 1])
        }
    }

    /// Whether one of the parts of the path is `parte`.
    pub fn tem_parte(&self, parte: &str) -> (r: bool)
        ensures
            r == self@.partes.contains(parte@),
    {
        let procurada = String::from_str(parte);
        let mut i: usize = 0;
        while i < self.partes.len()
            invariant
                i <= self.partes.len(),
                procurada@ == parte@,
                forall|k: int| 0 <= k < i ==> textos(self.partes@)[k] != parte@,
            decreases self.partes.len() - i,
        {
            if self.partes[i] == procurada {
                assert(textos(self.partes@)[i as int] == parte@);
                return true;
            }
            i = i + 1;
        }
        false
    }
}

} // verus!
