# carteira

The verified core of an investment-wallet web application (Axum, SQLx,
Askama): people register purchases and sales of assets and see what their
wallet is worth, in Brazilian number formats.

- `src/` is the library, verified with Verus:
  - `text`: decimal digits written and read back (`u128` parsing included),
    trimming and searching of characters;
  - `format`: thousands grouping, money from cents (`212.200,00`), asset
    quantities from their fixed-point text (`0,5`, no trailing zeros),
    percentages (`75,0`), with the laws that relate them;
  - `error`: the error catalogue, its HTTP status codes and the messages
    shown to users (internal failures never show their details);
  - `config`: acceptance of the secrets read from the environment and the
    signing key built from them;
  - `routes::frontend`: post-action notices and the redirect that carries
    them;
  - `models`: the stored user record.
- `app/` is the web server around it: routes, database access, templates,
  the floating-point steps (rounding to cents, printing with fixed decimals,
  wallet totals and shares) and the process-wide secrets.
- `tests/` exercises the library.
