//! The notices shown on the dashboard after an action, and where the
//! browser is sent back to after one.

use vstd::prelude::*;

verus! {

/// Notice shown at the top of the dashboard after an action.
///
/// It travels in the URL as a fixed code, not as free text, so that nobody
/// can build a link that shows a message of their choosing on the page.
#[derive(Clone, Copy, PartialEq, Eq, Structural, Debug)]
pub enum Notice {
    CompraRegistrada,
    VendaRegistrada,
    PosicaoEncerrada,
}

impl Notice {
    /// The text shown for the notice.
    pub open spec fn message_text(self) -> Seq<char> {
        match self {
            Notice::CompraRegistrada => "Compra registrada na sua carteira."@,
            Notice::VendaRegistrada => "Venda registrada na sua carteira."@,
            Notice::PosicaoEncerrada => "Posição encerrada: você vendeu todo o ativo."@,
        }
    }

    /// The code of the notice in the URL.
    pub open spec fn slug_text(self) -> Seq<char> {
        match self {
            Notice::CompraRegistrada => "compra_registrada"@,
            Notice::VendaRegistrada => "venda_registrada"@,
            Notice::PosicaoEncerrada => "posicao_encerrada"@,
        }
    }

    /// The text shown for the notice.
    pub fn message(self) -> (message: &'static str)
        ensures
            message@ == self.message_text(),
    {
        match self {
            Notice::CompraRegistrada => "Compra registrada na sua carteira.",
            Notice::VendaRegistrada => "Venda registrada na sua carteira.",
            Notice::PosicaoEncerrada => "Posição encerrada: você vendeu todo o ativo.",
        }
    }

    /// The code of the notice in the URL.
    pub fn slug(self) -> (slug: &'static str)
        ensures
            slug@ == self.slug_text(),
    {
        match self {
            Notice::CompraRegistrada => "compra_registrada",
            Notice::VendaRegistrada => "venda_registrada",
            Notice::PosicaoEncerrada => "posicao_encerrada",
        }
    }

    /// The notice after a sale: the position either remains, with what was
    /// not sold, or was closed because everything was sold.
    pub fn after_sale(position_remains: bool) -> (notice: Notice)
        ensures
            notice == (if position_remains {
                Notice::VendaRegistrada
            } else {
                Notice::PosicaoEncerrada
            }),
    {
        if position_remains {
            Notice::VendaRegistrada
        } else {
            Notice::PosicaoEncerrada
        }
    }
}

/// Where the browser goes after an action that changed data: back to the
/// dashboard, with the notice in the query string, so that reloading the
/// page does not repeat the purchase or the sale.
pub fn redirect_target(notice: Notice) -> (location: String)
    ensures
        location@ == "/?aviso="@ + notice.slug_text(),
{
    let mut location = String::from_str("/?aviso=");
    location.append(notice.slug());
    location
}

/// A character allowed in a notice code: a lowercase ASCII letter or `'_'`.
pub open spec fn is_code_char(c: char) -> bool {
    ('a' <= c && c <= 'z') || c == '_'
}

/// Each notice has its own code, made only of lowercase letters and
/// underscores (so it reads back unambiguously and needs no escaping in a
/// URL), and a non-empty message.
pub proof fn lemma_notice_codes(a: Notice, b: Notice)
    ensures
        a.slug_text() == b.slug_text() ==> a == b,
        a.slug_text().len() > 0,
        forall|i: int| 0 <= i < a.slug_text().len() ==> is_code_char(#[trigger] a.slug_text()[i]),
        a.message_text().len() > 0,
{
    reveal_strlit("compra_registrada");
    reveal_strlit("venda_registrada");
    reveal_strlit("posicao_encerrada");
    reveal_strlit("Compra registrada na sua carteira.");
    reveal_strlit("Venda registrada na sua carteira.");
    reveal_strlit("Posição encerrada: você vendeu todo o ativo.");
    assert("compra_registrada"@[0] != "posicao_encerrada"@[0]);
    assert("compra_registrada"@.len() != "venda_registrada"@.len());
    assert("venda_registrada"@.len() != "posicao_encerrada"@.len());
}

} // verus!
