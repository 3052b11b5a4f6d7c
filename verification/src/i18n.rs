use vstd::prelude::*;

use crate::text::{decimal, decimal_string, replace_all, replace_text, same_text};

verus! {

/// Supported languages.
#[derive(Clone, Copy, Debug, PartialEq, Eq, Structural)]
pub enum Language {
    English,
    French,
}

/// What `str::to_lowercase` returns for a text. It depends on the text alone.
pub uninterp spec fn lowercase(s: Seq<char>) -> Seq<char>;

pub open spec fn is_ascii_text(s: Seq<char>) -> bool {
    forall|i: int| 0 <= i < s.len() ==> (#[trigger] s[i] as int) < 128
}

pub open spec fn ascii_lower(c: char) -> char {
    if 'A' <= c && c <= 'Z' {
        ((c as int) + 32) as char
    } else {
        c
    }
}

/// `s` with its ASCII capitals lower-cased.
pub open spec fn ascii_lowered(s: Seq<char>) -> Seq<char> {
    s.map_values(|c: char| ascii_lower(c))
}

/// Lower-cases a text with std's `str::to_lowercase`.
///
/// The result is named (`lowercase`); for ASCII text it is the ASCII
/// lower-casing, as std documents. Nothing more is stated of other text.
#[verifier::external_body]
pub(crate) fn to_lower(s: &str) -> (r: String)
    ensures
        r@ == lowercase(s@),
        is_ascii_text(s@) ==> r@ == ascii_lowered(s@),
{
    s.to_lowercase()
}

/// A language's code names that language again: the code is ASCII, and
/// `from_code` of it, which lower-cases ASCII codes, gives the language back.
pub proof fn law_code_names_language(l: Language)
    ensures
        is_ascii_text(language_code(l)),
        code_language(ascii_lowered(language_code(l))) == l,
{
    reveal_strlit("en");
    reveal_strlit("fr");
    reveal_strlit("fr_fr");
    reveal_strlit("french");
    assert(ascii_lowered("en"@) =~= "en"@);
    assert(ascii_lowered("fr"@) =~= "fr"@);
    assert("en"@[0] != "fr"@[0]);
    assert("en"@.len() != "fr_fr"@.len() && "en"@.len() != "french"@.len());
}

/// The language a lower-cased code names: "fr", "fr_fr" and "french" are
/// French, anything else English.
pub open spec fn code_language(lower: Seq<char>) -> Language {
    if lower == "fr"@ || lower == "fr_fr"@ || lower == "french"@ {
        Language::French
    } else {
        Language::English
    }
}

/// A text starting with "fr".
pub open spec fn starts_fr(s: Seq<char>) -> bool {
    s.len() >= 2 && s[0] == 'f' && s[1] == 'r'
}

pub open spec fn language_code(l: Language) -> Seq<char> {
    match l {
        Language::English => "en"@,
        Language::French => "fr"@,
    }
}

/// The language of an already lower-cased code (see `code_language`).
pub fn language_for_lowercase(lower: &str) -> (l: Language)
    ensures
        l == code_language(lower@),
{
    if same_text(lower, "fr") || same_text(lower, "fr_fr") || same_text(lower, "french") {
        Language::French
    } else {
        Language::English
    }
}

impl Language {
    /// The language a code names, ignoring case (unknown codes: English).
    pub fn from_code(code: &str) -> (l: Language)
        ensures
            l == code_language(lowercase(code@)),
            is_ascii_text(code@) ==> l == code_language(ascii_lowered(code@)),
    {
        let lower = to_lower(code);
        language_for_lowercase(lower.as_str())
    }

    /// The language the environment asks for, given the values of the
    /// locale variables (`LC_ALL`, `LANG`, `LANGUAGE`, `None` where unset):
    /// French when one of them starts with "fr", ignoring case.
    pub fn detect_from(values: &[Option<String>]) -> (l: Language)
        ensures
            l == (if exists|i: int|
                0 <= i < values@.len() && (#[trigger] values@[i] matches Some(v) && starts_fr(
                    lowercase(v@),
                )) {
                Language::French
            } else {
                Language::English
            }),
            (forall|i: int| 0 <= i < values@.len() ==> (#[trigger] values@[i] matches Some(v) ==> is_ascii_text(v@)))
                ==> l == (if exists|i: int|
                0 <= i < values@.len() && (#[trigger] values@[i] matches Some(v) && starts_fr(
                    ascii_lowered(v@),
                )) {
                Language::French
            } else {
                Language::English
            }),
    {
        let mut i: usize = 0;
        while i < values.len()
            invariant
                i <= values@.len(),
                forall|j: int|
                    0 <= j < i ==> !(#[trigger] values@[j] matches Some(v) && starts_fr(lowercase(v@))),
                forall|j: int|
                    0 <= j < i ==> (#[trigger] values@[j] matches Some(v) ==> (is_ascii_text(v@) ==> lowercase(v@)
                        == ascii_lowered(v@))),
            decreases values@.len() - i,
        {
            match &values[i] {
                Some(v) => {
                    let lower = to_lower(v.as_str());
                    if lower.as_str().unicode_len() >= 2 && lower.as_str().get_char(0) == 'f'
                        && lower.as_str().get_char(1) == 'r' {
                        return Language::French;
                    }
                },
                None => {},
            }
            i += 1;
        }
        Language::English
    }

    /// The two-letter code of the language.
    pub fn code(&self) -> (c: &'static str)
        ensures
            c@ == language_code(*self),
    {
        match self {
            Language::English => "en",
            Language::French => "fr",
        }
    }
}

/// A parsed translation file: nested tables of texts (other values are
/// ignored).
#[derive(Debug)]
pub enum TomlNode {
    Text(String),
    Table(Vec<(String, TomlNode)>),
    Other,
}

pub type Pairs = Seq<(Seq<char>, Seq<char>)>;

pub open spec fn pairs_view(v: Seq<(String, String)>) -> Pairs {
    v.map_values(|e: (String, String)| (e.0@, e.1@))
}

/// The value of the first entry with key `key`.
pub open spec fn lookup(t: Pairs, key: Seq<char>) -> Option<Seq<char>>
    decreases t.len(),
{
    if t.len() == 0 {
        None
    } else if t[0].0 == key {
        Some(t[0].1)
    } else {
        lookup(t.drop_first(), key)
    }
}

/// The table with `key` set to `val`: the first entry with that key is
/// overwritten, or the entry is appended.
pub open spec fn table_insert(t: Pairs, key: Seq<char>, val: Seq<char>) -> Pairs
    decreases t.len(),
{
    if t.len() == 0 {
        seq![(key, val)]
    } else if t[0].0 == key {
        t.update(0, (key, val))
    } else {
        seq![t[0]] + table_insert(t.drop_first(), key, val)
    }
}

/// The dotted key of `key` under `prefix`.
pub open spec fn join_key(prefix: Seq<char>, key: Seq<char>) -> Seq<char> {
    if prefix.len() == 0 {
        key
    } else {
        prefix + "."@ + key
    }
}

/// Adding the texts of `entries` (nested tables flattened to dotted keys)
/// to `t`, in order.
pub open spec fn flatten(t: Pairs, entries: Seq<(String, TomlNode)>, prefix: Seq<char>) -> Pairs
    decreases entries,
{
    if entries.len() == 0 {
        t
    } else {
        let (k, node) = entries[0];
        let t1 = match node {
            TomlNode::Text(s) => table_insert(t, join_key(prefix, k@), s@),
            TomlNode::Table(v) => {
                proof {
                    assert(decreases_to!(entries => entries[0]));
                }
                flatten(t, v@, join_key(prefix, k@))
            },
            TomlNode::Other => t,
        };
        proof {
            assert(decreases_to!(entries => entries.subrange(1, entries.len() as int)));
        }
        flatten(t1, entries.subrange(1, entries.len() as int), prefix)
    }
}

/// `{i}`: the placeholder of the `i`-th argument.
pub open spec fn placeholder(i: nat) -> Seq<char> {
    "{"@ + decimal(i) + "}"@
}

/// `s` with the placeholders of the first `n` arguments replaced, in order.
pub open spec fn fill_args(s: Seq<char>, args: Seq<Seq<char>>, n: nat) -> Seq<char>
    decreases n,
{
    if n == 0 {
        s
    } else {
        replace_all(fill_args(s, args, (n - 1) as nat), placeholder((n - 1) as nat), args[n - 1])
    }
}

pub open spec fn english_table() -> Seq<(Seq<char>, Seq<char>)> {
    seq![
        ("app.title"@, "Game Center"@),
        ("app.quit"@, "Quit"@),
        ("app.back"@, "Back"@),
        ("app.confirm"@, "Confirm"@),
        ("app.cancel"@, "Cancel"@),
        ("login.title"@, "Login"@),
        ("login.username"@, "Username"@),
        ("login.password"@, "Password"@),
        ("login.error_empty_username"@, "Username cannot be empty"@),
        ("login.error_short_password"@, "Password is too short"@),
        ("login.connecting"@, "Connecting..."@),
        ("login.login_button"@, "Log in"@),
        ("login.register_button"@, "Register"@),
        ("login.switch_to_login"@, "Already have an account? Log in"@),
        ("login.switch_to_register"@, "No account yet? Register"@),
        ("lobby.title"@, "Lobby"@),
        ("lobby.rooms"@, "Rooms"@),
        ("lobby.create_room"@, "Create room"@),
        ("lobby.join_room"@, "Join room"@),
        ("lobby.no_rooms"@, "No rooms available"@),
        ("lobby.refresh"@, "Refresh"@),
        ("lobby.players"@, "{0}/{1} players"@),
        ("game.your_turn"@, "Your turn"@),
        ("game.opponent_turn"@, "Opponent's turn"@),
        ("game.you_win"@, "You win!"@),
        ("game.you_lose"@, "You lose"@),
        ("game.draw"@, "Draw"@),
        ("game.rematch"@, "Rematch"@),
        ("game.leave"@, "Leave game"@),
        ("errors.connection_failed"@, "Connection failed"@),
        ("checkers.error_illegal_target"@, "Illegal target square"@),
        ("checkers.error_own_piece"@, "Select one of your own pieces"@),
        ("snake.controls"@, "Arrow keys to steer"@),
        ("snake.game_over"@, "Game over"@),
    ]
}

pub open spec fn french_table() -> Seq<(Seq<char>, Seq<char>)> {
    seq![
        ("app.title"@, "Centre de Jeux"@),
        ("app.quit"@, "Quitter"@),
        ("app.back"@, "Retour"@),
        ("app.confirm"@, "Confirmer"@),
        ("app.cancel"@, "Annuler"@),
        ("login.title"@, "Connexion"@),
        ("login.username"@, "Nom d'utilisateur"@),
        ("login.password"@, "Mot de passe"@),
        ("login.error_empty_username"@, "Le nom d'utilisateur est vide"@),
        ("login.error_short_password"@, "Mot de passe trop court"@),
        ("login.connecting"@, "Connexion en cours..."@),
        ("login.login_button"@, "Se connecter"@),
        ("login.register_button"@, "S'inscrire"@),
        ("login.switch_to_login"@, "Déjà un compte ? Se connecter"@),
        ("login.switch_to_register"@, "Pas de compte ? S'inscrire"@),
        ("lobby.title"@, "Salon"@),
        ("lobby.rooms"@, "Salles"@),
        ("lobby.create_room"@, "Créer une salle"@),
        ("lobby.join_room"@, "Rejoindre une salle"@),
        ("lobby.no_rooms"@, "Aucune salle disponible"@),
        ("lobby.refresh"@, "Actualiser"@),
        ("lobby.players"@, "{0}/{1} joueurs"@),
        ("game.your_turn"@, "À vous de jouer"@),
        ("game.opponent_turn"@, "Tour de l'adversaire"@),
        ("game.you_win"@, "Vous avez gagné !"@),
        ("game.you_lose"@, "Vous avez perdu"@),
        ("game.draw"@, "Match nul"@),
        ("game.rematch"@, "Revanche"@),
        ("game.leave"@, "Quitter la partie"@),
        ("errors.connection_failed"@, "Échec de la connexion"@),
        ("checkers.error_illegal_target"@, "Case d'arrivée interdite"@),
        ("checkers.error_own_piece"@, "Choisissez une de vos pièces"@),
        ("snake.controls"@, "Flèches pour diriger"@),
        ("snake.game_over"@, "Partie terminée"@),
    ]
}

pub open spec fn language_table(l: Language) -> Pairs {
    match l {
        Language::English => english_table(),
        Language::French => french_table(),
    }
}

fn english_entries() -> (v: Vec<(String, String)>)
    ensures
        pairs_view(v@) == english_table(),
{
    let mut v: Vec<(String, String)> = Vec::new();
    v.push(("app.title".to_owned(), "Game Center".to_owned()));
    v.push(("app.quit".to_owned(), "Quit".to_owned()));
    v.push(("app.back".to_owned(), "Back".to_owned()));
    v.push(("app.confirm".to_owned(), "Confirm".to_owned()));
    v.push(("app.cancel".to_owned(), "Cancel".to_owned()));
    v.push(("login.title".to_owned(), "Login".to_owned()));
    v.push(("login.username".to_owned(), "Username".to_owned()));
    v.push(("login.password".to_owned(), "Password".to_owned()));
    v.push(("login.error_empty_username".to_owned(), "Username cannot be empty".to_owned()));
    v.push(("login.error_short_password".to_owned(), "Password is too short".to_owned()));
    v.push(("login.connecting".to_owned(), "Connecting...".to_owned()));
    v.push(("login.login_button".to_owned(), "Log in".to_owned()));
    v.push(("login.register_button".to_owned(), "Register".to_owned()));
    v.push(("login.switch_to_login".to_owned(), "Already have an account? Log in".to_owned()));
    v.push(("login.switch_to_register".to_owned(), "No account yet? Register".to_owned()));
    v.push(("lobby.title".to_owned(), "Lobby".to_owned()));
    v.push(("lobby.rooms".to_owned(), "Rooms".to_owned()));
    v.push(("lobby.create_room".to_owned(), "Create room".to_owned()));
    v.push(("lobby.join_room".to_owned(), "Join room".to_owned()));
    v.push(("lobby.no_rooms".to_owned(), "No rooms available".to_owned()));
    v.push(("lobby.refresh".to_owned(), "Refresh".to_owned()));
    v.push(("lobby.players".to_owned(), "{0}/{1} players".to_owned()));
    v.push(("game.your_turn".to_owned(), "Your turn".to_owned()));
    v.push(("game.opponent_turn".to_owned(), "Opponent's turn".to_owned()));
    v.push(("game.you_win".to_owned(), "You win!".to_owned()));
    v.push(("game.you_lose".to_owned(), "You lose".to_owned()));
    v.push(("game.draw".to_owned(), "Draw".to_owned()));
    v.push(("game.rematch".to_owned(), "Rematch".to_owned()));
    v.push(("game.leave".to_owned(), "Leave game".to_owned()));
    v.push(("errors.connection_failed".to_owned(), "Connection failed".to_owned()));
    v.push(("checkers.error_illegal_target".to_owned(), "Illegal target square".to_owned()));
    v.push(("checkers.error_own_piece".to_owned(), "Select one of your own pieces".to_owned()));
    v.push(("snake.controls".to_owned(), "Arrow keys to steer".to_owned()));
    v.push(("snake.game_over".to_owned(), "Game over".to_owned()));
    assert(pairs_view(v@) =~= english_table());
    v
}

fn french_entries() -> (v: Vec<(String, String)>)
    ensures
        pairs_view(v@) == french_table(),
{
    let mut v: Vec<(String, String)> = Vec::new();
    v.push(("app.title".to_owned(), "Centre de Jeux".to_owned()));
    v.push(("app.quit".to_owned(), "Quitter".to_owned()));
    v.push(("app.back".to_owned(), "Retour".to_owned()));
    v.push(("app.confirm".to_owned(), "Confirmer".to_owned()));
    v.push(("app.cancel".to_owned(), "Annuler".to_owned()));
    v.push(("login.title".to_owned(), "Connexion".to_owned()));
    v.push(("login.username".to_owned(), "Nom d'utilisateur".to_owned()));
    v.push(("login.password".to_owned(), "Mot de passe".to_owned()));
    v.push(("login.error_empty_username".to_owned(), "Le nom d'utilisateur est vide".to_owned()));
    v.push(("login.error_short_password".to_owned(), "Mot de passe trop court".to_owned()));
    v.push(("login.connecting".to_owned(), "Connexion en cours...".to_owned()));
    v.push(("login.login_button".to_owned(), "Se connecter".to_owned()));
    v.push(("login.register_button".to_owned(), "S'inscrire".to_owned()));
    v.push(("login.switch_to_login".to_owned(), "Déjà un compte ? Se connecter".to_owned()));
    v.push(("login.switch_to_register".to_owned(), "Pas de compte ? S'inscrire".to_owned()));
    v.push(("lobby.title".to_owned(), "Salon".to_owned()));
    v.push(("lobby.rooms".to_owned(), "Salles".to_owned()));
    v.push(("lobby.create_room".to_owned(), "Créer une salle".to_owned()));
    v.push(("lobby.join_room".to_owned(), "Rejoindre une salle".to_owned()));
    v.push(("lobby.no_rooms".to_owned(), "Aucune salle disponible".to_owned()));
    v.push(("lobby.refresh".to_owned(), "Actualiser".to_owned()));
    v.push(("lobby.players".to_owned(), "{0}/{1} joueurs".to_owned()));
    v.push(("game.your_turn".to_owned(), "À vous de jouer".to_owned()));
    v.push(("game.opponent_turn".to_owned(), "Tour de l'adversaire".to_owned()));
    v.push(("game.you_win".to_owned(), "Vous avez gagné !".to_owned()));
    v.push(("game.you_lose".to_owned(), "Vous avez perdu".to_owned()));
    v.push(("game.draw".to_owned(), "Match nul".to_owned()));
    v.push(("game.rematch".to_owned(), "Revanche".to_owned()));
    v.push(("game.leave".to_owned(), "Quitter la partie".to_owned()));
    v.push(("errors.connection_failed".to_owned(), "Échec de la connexion".to_owned()));
    v.push(("checkers.error_illegal_target".to_owned(), "Case d'arrivée interdite".to_owned()));
    v.push(("checkers.error_own_piece".to_owned(), "Choisissez une de vos pièces".to_owned()));
    v.push(("snake.controls".to_owned(), "Flèches pour diriger".to_owned()));
    v.push(("snake.game_over".to_owned(), "Partie terminée".to_owned()));
    assert(pairs_view(v@) =~= french_table());
    v
}

/// `toml::map::Map`, carried through as an opaque value.
#[verifier::external_type_specification]
#[verifier::external_body]
#[verifier::reject_recursive_types(K)]
#[verifier::reject_recursive_types(V)]
pub struct ExTomlMap<K, V>(toml::map::Map<K, V>);

/// `toml::Value`, carried through as an opaque value.
#[verifier::external_type_specification]
#[verifier::external_body]
pub struct ExTomlValue(toml::Value);

/// What parsing a text as a TOML document gives, as a tree of entries
/// (`None` when the text is not TOML). It depends on the text alone.
pub uninterp spec fn toml_document(text: Seq<char>) -> Option<Seq<(String, TomlNode)>>;

/// Parses a TOML document (`toml::from_str` into a `toml::Table`) and gives
/// its entries as a tree (see `toml_entries`); `None` when the text is not
/// TOML. The result is named `toml_document`.
#[verifier::external_body]
fn parse_toml(text: &str) -> (r: Option<Vec<(String, TomlNode)>>)
    ensures
        match r {
            Some(v) => toml_document(text@) == Some(v@),
            None => toml_document(text@) is None,
        },
{
    match toml::from_str::<toml::Table>(text) {
        Ok(t) => Some(toml_entries(&t)),
        Err(_) => None,
    }
}

/// The entries of a parsed TOML table in the table's order, converted one for
/// one: strings to `Text`, tables to `Table`, any other value to `Other`.
#[verifier::external_body]
fn toml_entries(t: &toml::map::Map<String, toml::Value>) -> (r: Vec<(String, TomlNode)>) {
    let mut out = Vec::new();
    for (k, v) in t.iter() {
        let node = match v {
            toml::Value::String(s) => TomlNode::Text(s.clone()),
            toml::Value::Table(inner) => TomlNode::Table(toml_entries(inner)),
            _ => TomlNode::Other,
        };
        out.push((k.clone(), node));
    }
    out
}

/// A flat key-value translator; keys use dot notation ("login.title").
#[derive(Debug)]
pub struct Translator {
    translations: Vec<(String, String)>,
    language: Language,
}

fn table_set(v: &mut Vec<(String, String)>, key: String, val: String)
    ensures
        pairs_view(final(v)@) == table_insert(pairs_view(old(v)@), key@, val@),
{
    let ghost t0 = pairs_view(v@);
    let mut i: usize = 0;
    assert(t0.skip(0) =~= t0);
    assert(t0.subrange(0, 0) + table_insert(t0.skip(0), key@, val@) =~= table_insert(t0, key@, val@));
    while i < v.len()
        invariant
            t0 == pairs_view(old(v)@),
            v@ == old(v)@,
            i <= v@.len(),
            table_insert(t0, key@, val@) == t0.subrange(0, i as int) + table_insert(
                t0.skip(i as int),
                key@,
                val@,
            ),
            forall|j: int| 0 <= j < i ==> t0[j].0 != key@,
        decreases v@.len() - i,
    {
        assert(t0.skip(i as int)[0] == t0[i as int]);
        assert(t0[i as int].0 == v@[i as int].0@);
        if same_text(v[i].0.as_str(), key.as_str()) {
            let ghost rest = t0.skip(i as int);
            assert(table_insert(rest, key@, val@) == rest.update(0, (key@, val@)));
            v.set(i, (key, val));
            assert(pairs_view(v@) =~= t0.subrange(0, i as int) + rest.update(0, (key@, val@)));
            return;
        }
        assert(t0.skip(i as int).drop_first() =~= t0.skip(i + 1));
        assert(t0.subrange(0, i + 1) =~= t0.subrange(0, i as int) + seq![t0[i as int]]);
        i += 1;
    }
    assert(t0.skip(i as int) =~= Seq::<(Seq<char>, Seq<char>)>::empty());
    assert(t0.subrange(0, i as int) =~= t0);
    v.push((key, val));
    assert(pairs_view(v@) =~= t0 + seq![(key@, val@)]);
}

fn join_prefix(prefix: &str, key: &String) -> (r: String)
    ensures
        r@ == join_key(prefix@, key@),
{
    if prefix.unicode_len() == 0 {
        key.clone()
    } else {
        let mut r = prefix.to_owned();
        r.append(".");
        r.append(key.as_str());
        r
    }
}

fn flatten_into(out: &mut Vec<(String, String)>, entries: &Vec<(String, TomlNode)>, prefix: &str)
    ensures
        pairs_view(final(out)@) == flatten(pairs_view(old(out)@), entries@, prefix@),
    decreases entries@,
{
    let mut i: usize = 0;
    assert(entries@.skip(0) =~= entries@);
    while i < entries.len()
        invariant
            i <= entries@.len(),
            flatten(pairs_view(old(out)@), entries@, prefix@) == flatten(
                pairs_view(out@),
                entries@.skip(i as int),
                prefix@,
            ),
        decreases entries@.len() - i,
    {
        let ghost rest = entries@.skip(i as int);
        assert(rest[0] == entries@[i as int]);
        assert(rest.subrange(1, rest.len() as int) =~= entries@.skip(i + 1));
        let key = &entries[i].0;
        match &entries[i].1 {
            TomlNode::Text(s) => {
                let full = join_prefix(prefix, key);
                table_set(out, full, s.clone());
            },
            TomlNode::Table(t) => {
                let full = join_prefix(prefix, key);
                assert(decreases_to!(entries@ => entries@[i as int]));
                flatten_into(out, t, full.as_str());
            },
            TomlNode::Other => {},
        }
        i += 1;
    }
    assert(entries@.skip(i as int) =~= Seq::<(String, TomlNode)>::empty());
}

impl Translator {
    /// The translation table.
    pub closed spec fn table(&self) -> Pairs {
        pairs_view(self.translations@)
    }

    pub closed spec fn lang(&self) -> Language {
        self.language
    }

    /// The built-in translations of a language.
    pub fn new(language: Language) -> (t: Translator)
        ensures
            t.table() == language_table(language),
            t.lang() == language,
    {
        let translations = match language {
            Language::English => english_entries(),
            Language::French => french_entries(),
        };
        Translator { translations, language }
    }

    /// Translations from the text of a TOML file: its tables become dotted
    /// keys (see `from_tree`); a text that is not TOML gives no translations.
    pub fn from_toml(toml_str: &str, language: Language) -> (t: Translator)
        ensures
            t.table() == flatten(
                Seq::empty(),
                match toml_document(toml_str@) {
                    Some(d) => d,
                    None => Seq::empty(),
                },
                Seq::empty(),
            ),
            t.lang() == language,
    {
        let tree = match parse_toml(toml_str) {
            Some(v) => v,
            None => Vec::new(),
        };
        Translator::from_tree(&tree, language)
    }

    /// Translations from a parsed file: nested tables become dotted keys; a
    /// later key overwrites an earlier equal one.
    pub fn from_tree(root: &Vec<(String, TomlNode)>, language: Language) -> (t: Translator)
        ensures
            t.table() == flatten(Seq::empty(), root@, Seq::empty()),
            t.lang() == language,
    {
        let mut translations: Vec<(String, String)> = Vec::new();
        assert(pairs_view(translations@) =~= Seq::empty());
        proof {
            reveal_strlit("");
        }
        assert(""@ =~= Seq::<char>::empty());
        flatten_into(&mut translations, root, "");
        Translator { translations, language }
    }

    /// The translation of `key`, or `key` itself when there is none.
    pub fn get<'a>(&'a self, key: &'a str) -> (r: &'a str)
        ensures
            r@ == match lookup(self.table(), key@) {
                Some(v) => v,
                None => key@,
            },
    {
        let ghost t = self.table();
        let mut i: usize = 0;
        assert(t.skip(0) =~= t);
        while i < self.translations.len()
            invariant
                t == pairs_view(self.translations@),
                i <= self.translations@.len(),
                lookup(t, key@) == lookup(t.skip(i as int), key@),
            decreases self.translations@.len() - i,
        {
            assert(t.skip(i as int)[0] == t[i as int]);
            if same_text(self.translations[i].0.as_str(), key) {
                return self.translations[i].1.as_str();
            }
            assert(t.skip(i as int).drop_first() =~= t.skip(i + 1));
            i += 1;
        }
        assert(t.skip(i as int).len() == 0);
        key
    }

    /// The translation of `key` with `{0}`, `{1}`, ... replaced by `args`.
    pub fn get_fmt(&self, key: &str, args: &[&str]) -> (r: String)
        ensures
            r@ == fill_args(
                match lookup(self.table(), key@) {
                    Some(v) => v,
                    None => key@,
                },
                args@.map_values(|a: &str| a@),
                args@.len(),
            ),
    {
        let base = self.get(key);
        let ghost av = args@.map_values(|a: &str| a@);
        let mut result = base.to_owned();
        let mut i: usize = 0;
        while i < args.len()
            invariant
                i <= args@.len(),
                av == args@.map_values(|a: &str| a@),
                result@ == fill_args(base@, av, i as nat),
            decreases args@.len() - i,
        {
            let mut ph = "{".to_owned();
            let d = decimal_string(i as u64);
            ph.append(d.as_str());
            ph.append("}");
            proof {
                reveal_strlit("{");
                reveal_strlit("}");
            }
            assert(ph@ == placeholder(i as nat));
            result = replace_text(result.as_str(), ph.as_str(), args[i]);
            i += 1;
        }
        result
    }

    /// Whether the table has an entry for `key`.
    pub fn contains_key(&self, key: &str) -> (r: bool)
        ensures
            r == lookup(self.table(), key@) is Some,
    {
        let ghost t = self.table();
        let mut i: usize = 0;
        assert(t.skip(0) =~= t);
        while i < self.translations.len()
            invariant
                t == pairs_view(self.translations@),
                i <= self.translations@.len(),
                lookup(t, key@) == lookup(t.skip(i as int), key@),
            decreases self.translations@.len() - i,
        {
            assert(t.skip(i as int)[0] == t[i as int]);
            if same_text(self.translations[i].0.as_str(), key) {
                return true;
            }
            assert(t.skip(i as int).drop_first() =~= t.skip(i + 1));
            i += 1;
        }
        assert(t.skip(i as int).len() == 0);
        false
    }

    /// The keys of the table, in table order.
    pub fn keys(&self) -> (r: Vec<String>)
        ensures
            r@.len() == self.table().len(),
            forall|i: int| 0 <= i < r@.len() ==> #[trigger] r@[i]@ == self.table()[i].0,
    {
        let mut r: Vec<String> = Vec::new();
        let mut i: usize = 0;
        while i < self.translations.len()
            invariant
                i <= self.translations@.len(),
                r@.len() == i,
                forall|j: int| 0 <= j < i ==> #[trigger] r@[j]@ == self.translations@[j].0@,
            decreases self.translations@.len() - i,
        {
            r.push(self.translations[i].0.clone());
            i += 1;
        }
        r
    }

    /// The translator's language.
    pub fn language(&self) -> (l: Language)
        ensures
            l == self.lang(),
    {
        self.language
    }
}


proof fn lemma_lookup_same_keys(a: Pairs, b: Pairs, key: Seq<char>)
    requires
        a.len() == b.len(),
        forall|i: int| 0 <= i < a.len() ==> (#[trigger] a[i]).0 == b[i].0,
    ensures
        lookup(a, key) is Some <==> lookup(b, key) is Some,
    decreases a.len(),
{
    if a.len() > 0 {
        assert(a[0].0 == b[0].0);
        lemma_lookup_same_keys(a.drop_first(), b.drop_first(), key);
    }
}

/// Every key translated in English is translated in French, and conversely.
pub proof fn law_languages_share_keys(key: Seq<char>)
    ensures
        lookup(english_table(), key) is Some <==> lookup(french_table(), key) is Some,
{
    let en = english_table();
    let fr = french_table();
    assert(en.map_values(|p: (Seq<char>, Seq<char>)| p.0) =~= fr.map_values(|p: (Seq<char>, Seq<char>)| p.0));
    assert forall|i: int| 0 <= i < en.len() implies (#[trigger] en[i]).0 == fr[i].0 by {
        assert(en.map_values(|p: (Seq<char>, Seq<char>)| p.0)[i] == fr.map_values(|p: (Seq<char>, Seq<char>)| p.0)[i]);
    }
    lemma_lookup_same_keys(en, fr, key);
}

} // verus!
