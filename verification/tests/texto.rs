use cargo_listagem::texto::acha_ultimo;
use cargo_listagem::texto::decimal;
use cargo_listagem::texto::menor;
use cargo_listagem::texto::preenche;

#[test]
fn comparacao_strings() {
    assert!("abacate" < "abacaxi");
    assert!(menor("abacate", "abacaxi"));
    assert!(!menor("abacaxi", "abacate"));
}

#[test]
fn menor_concorda_com_a_ordem_das_strings() {
    let amostra = [
        "", "a", "A", "aa", "ab", "b", "abacate", "abacaxi", "abacat", "é", "e", "z", "zz", "~",
        "-", "a-b", "a_b", "ação", "acao", "\u{10ffff}", "\u{7f}", "\u{80}", "\u{800}", "日本",
    ];
    for a in amostra {
        for b in amostra {
            assert_eq!(menor(a, b), a < b, "{:?} {:?}", a, b);
        }
    }
}

#[test]
fn menor_e_estrito() {
    assert!(!menor("igual", "igual"));
    assert!(!menor("", ""));
    assert!(menor("", "a"));
    assert!(!menor("a", ""));
    assert!(menor("prefixo", "prefixo-mais"));
}

#[test]
fn preenche_com_pontos() {
    let mut texto = String::from("ab");
    preenche(&mut texto, 3);
    assert_eq!(texto, "ab...");
    preenche(&mut texto, 0);
    assert_eq!(texto, "ab...");
}

#[test]
fn decimal_de_numeros() {
    assert_eq!(decimal(0), "0");
    assert_eq!(decimal(7), "7");
    assert_eq!(decimal(10), "10");
    assert_eq!(decimal(1234567890), "1234567890");
    assert_eq!(decimal(u128::MAX), u128::MAX.to_string());
    for n in 0..1200u128 {
        assert_eq!(decimal(n), n.to_string());
    }
}

#[test]
fn acha_o_ultimo_caractere() {
    assert_eq!(acha_ultimo("a-b-c", '-'), Some(3));
    assert_eq!(acha_ultimo("-", '-'), Some(0));
    assert_eq!(acha_ultimo("abc", '-'), None);
    assert_eq!(acha_ultimo("", '-'), None);
    assert_eq!(acha_ultimo("ação.rs", '.'), Some(4));
}
