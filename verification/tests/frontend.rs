use carteira::routes::frontend::{redirect_target, Notice};

const NOTICES: [Notice; 3] = [
    Notice::CompraRegistrada,
    Notice::VendaRegistrada,
    Notice::PosicaoEncerrada,
];

#[test]
fn every_notice_has_a_distinct_code_and_a_message() {
    for a in NOTICES {
        assert!(!a.message().is_empty());
        assert!(a.slug().chars().all(|c| c.is_ascii_lowercase() || c == '_'));
        for b in NOTICES {
            assert_eq!(a.slug() == b.slug(), a == b);
        }
    }
}

#[test]
fn notice_codes_and_messages() {
    assert_eq!(Notice::CompraRegistrada.slug(), "compra_registrada");
    assert_eq!(Notice::VendaRegistrada.slug(), "venda_registrada");
    assert_eq!(Notice::PosicaoEncerrada.slug(), "posicao_encerrada");
    assert_eq!(
        Notice::CompraRegistrada.message(),
        "Compra registrada na sua carteira."
    );
    assert_eq!(
        Notice::VendaRegistrada.message(),
        "Venda registrada na sua carteira."
    );
    assert_eq!(
        Notice::PosicaoEncerrada.message(),
        "Posição encerrada: você vendeu todo o ativo."
    );
}

#[test]
fn actions_redirect_to_the_dashboard_with_their_notice() {
    assert_eq!(
        redirect_target(Notice::CompraRegistrada),
        "/?aviso=compra_registrada"
    );
    assert_eq!(
        redirect_target(Notice::PosicaoEncerrada),
        "/?aviso=posicao_encerrada"
    );
}

#[test]
fn sale_notice_depends_on_what_remains() {
    assert_eq!(Notice::after_sale(true), Notice::VendaRegistrada);
    assert_eq!(Notice::after_sale(false), Notice::PosicaoEncerrada);
}
