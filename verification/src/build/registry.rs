//! The client of image registries: what it asks for, and what it makes of the answers.
use crate::error::{about, outcome, Complaint, Conflict, Error, ErrorView, Fault};
use crate::text::{
    after_prefix, bare, contains_class, cut_once, first_of, glue, glue3, holds, is_white,
    law_bare_drops_white, law_cut_at_the_first, law_trimmed_end_is, law_trimmed_start_is,
    lemma_first_of, lemma_one_piece, lemma_pieces_at, pieces, same, split, split_once, starts, strip_prefix, trim, trim_both, trimmed,
    trimmed_end, trimmed_start, Class,
};
use vstd::prelude::*;
use vstd::utf8::{decode_utf8, encode_utf8, is_char_boundary};

verus! {

/// How often a request is made before it is given up.
pub const MAX_REQUEST_ATTEMPTS: u32 = 3;

/// An image, and the registry that has it.
#[derive(Debug)]
pub struct ImageReference {
    pub registry: String,
    pub repo: String,
    pub tag: String,
}

/// The mathematical value of an `ImageReference`.
#[verifier::ext_equal]
pub struct ImageView {
    pub registry: Seq<char>,
    pub repo: Seq<char>,
    pub tag: Seq<char>,
}

impl DeepView for ImageReference {
    type V = ImageView;

    open spec fn deep_view(&self) -> ImageView {
        ImageView { registry: self.registry@, repo: self.repo@, tag: self.tag@ }
    }
}

/// The mirrors that are used where none is set, in the order in which they are tried.
pub open spec fn default_mirrors() -> Seq<Seq<char>> {
    seq!["docker.m.daocloud.io"@, "docker.1ms.run"@]
}

/// The mirrors: the one that is set, or else the default ones.
pub open spec fn mirrors_of(set: Option<Seq<char>>) -> Seq<Seq<char>> {
    match set {
        Some(m) => seq![m],
        None => default_mirrors(),
    }
}

/// The registry and the rest of a reference: what stands before the first slash is a registry
/// where it holds a dot or a colon; any other reference is taken from the first mirror, under
/// `library/`.
pub open spec fn registry_and_rest(s: Seq<char>, set: Option<Seq<char>>) -> (Seq<char>, Seq<char>) {
    let from_mirror = (mirrors_of(set)[0], "library/"@ + s);
    match cut_once(s, Class::Only('/')) {
        Some((first, rest)) => if holds(first, Class::Only('.')) || holds(first, Class::Only(':')) {
            (first, rest)
        } else {
            from_mirror
        },
        None => from_mirror,
    }
}

/// The image that a reference names; the tag follows the first colon, and is `latest` where there
/// is none.
pub open spec fn image_of(s: Seq<char>, set: Option<Seq<char>>) -> ImageView {
    let (registry, rest) = registry_and_rest(s, set);
    match cut_once(rest, Class::Only(':')) {
        Some((repo, tag)) => ImageView { registry, repo, tag },
        None => ImageView { registry, repo: rest, tag: "latest"@ },
    }
}

impl ImageReference {
    /// Reads a reference such as `alpine:3.19`, with the mirror that is set, if one is.
    pub fn parse(s: &str, mirror: &Option<String>) -> (r: Result<Self, Error>)
        ensures
            outcome(r) == Ok::<ImageView, ErrorView>(image_of(s@, mirror.deep_view())),
    {
        let mut registry = Self::get_mirror(mirror);
        let mut rest = glue("library/", s);
        if let Some((first, tail)) = split_once(s, Class::Only('/')) {
            if contains_class(first.as_str(), Class::Only('.')) || contains_class(
                first.as_str(),
                Class::Only(':'),
            ) {
                registry = first;
                rest = tail;
            }
        }
        match split_once(rest.as_str(), Class::Only(':')) {
            Some((repo, tag)) => Ok(ImageReference { registry, repo, tag }),
            None => Ok(ImageReference { registry, repo: rest, tag: "latest".to_owned() }),
        }
    }

    /// The first mirror.
    pub fn get_mirror(mirror: &Option<String>) -> (r: String)
        ensures
            r@ == mirrors_of(mirror.deep_view())[0],
    {
        match mirror {
            Some(m) => m.clone(),
            None => "docker.m.daocloud.io".to_owned(),
        }
    }

    /// The mirrors, in the order in which they are tried.
    pub fn get_mirrors(mirror: &Option<String>) -> (r: Vec<String>)
        ensures
            r.deep_view() == mirrors_of(mirror.deep_view()),
    {
        let mut r: Vec<String> = Vec::new();
        match mirror {
            Some(m) => {
                r.push(m.clone());
            },
            None => {
                r.push("docker.m.daocloud.io".to_owned());
                r.push("docker.1ms.run".to_owned());
            },
        }
        proof {
            assert(r.deep_view() =~= mirrors_of(mirror.deep_view()));
        }
        r
    }
}

/// Where a registry hands out tokens.
#[verifier::ext_equal]
pub struct ChallengeView {
    pub realm: Seq<char>,
    pub service: Seq<char>,
    pub scope: Seq<char>,
}

/// The challenge with one more parameter read; of a parameter that occurs twice the last counts.
pub open spec fn read_parameter(c: ChallengeView, piece: Seq<char>) -> ChallengeView {
    let part = bare(piece);
    match after_prefix(part, "realm="@) {
        Some(v) => ChallengeView { realm: trimmed(v, Class::Only('"')), ..c },
        None => match after_prefix(part, "service="@) {
            Some(v) => ChallengeView { service: trimmed(v, Class::Only('"')), ..c },
            None => match after_prefix(part, "scope="@) {
                Some(v) => ChallengeView { scope: trimmed(v, Class::Only('"')), ..c },
                None => c,
            },
        },
    }
}

/// The challenge that the parameters make.
pub open spec fn read_parameters(p: Seq<Seq<char>>) -> ChallengeView
    decreases p.len(),
{
    if p.len() == 0 {
        ChallengeView { realm: Seq::empty(), service: Seq::empty(), scope: Seq::empty() }
    } else {
        read_parameter(read_parameters(p.drop_last()), p.last())
    }
}

/// The challenge in a `Www-Authenticate` header: `Bearer`, and parameters between commas, among
/// them a realm.
pub open spec fn challenge(header: Seq<char>) -> Option<ChallengeView> {
    match after_prefix(header, "Bearer "@) {
        Some(rest) => {
            let c = read_parameters(pieces(rest, Class::Only(',')));
            if c.realm.len() == 0 {
                None
            } else {
                Some(c)
            }
        },
        None => None,
    }
}

/// The parts of a challenge as a triple.
pub open spec fn triple(c: Option<ChallengeView>) -> Option<(Seq<char>, Seq<char>, Seq<char>)> {
    match c {
        Some(c) => Some((c.realm, c.service, c.scope)),
        None => None,
    }
}

/// What a challenge can hold.
#[derive(Debug, Clone, Copy, PartialEq, Eq, Structural)]
pub enum Parameter {
    Realm,
    Service,
    Scope,
}

/// The start of a parameter.
pub open spec fn label(key: Parameter) -> Seq<char> {
    match key {
        Parameter::Realm => "realm="@,
        Parameter::Service => "service="@,
        Parameter::Scope => "scope="@,
    }
}

/// A parameter, its value in quotation marks.
pub open spec fn parameter_text(key: Parameter, value: Seq<char>) -> Seq<char> {
    label(key) + seq!['"'] + value + seq!['"']
}

/// What stands between two parameters: a comma, and perhaps a space.
pub open spec fn separator(spaced: bool) -> Seq<char> {
    if spaced {
        seq![',', ' ']
    } else {
        seq![',']
    }
}

/// The parameters in order; `spaced` says of each but the first whether a space stands before it.
pub open spec fn parameters_text(all: Seq<(Parameter, Seq<char>)>, spaced: Seq<bool>) -> Seq<char>
    decreases all.len(),
{
    if all.len() == 0 {
        Seq::empty()
    } else {
        let last = parameter_text(all.last().0, all.last().1);
        if all.len() == 1 {
            last
        } else {
            parameters_text(all.drop_last(), spaced) + separator(spaced[all.len() - 1]) + last
        }
    }
}

/// The value of a parameter; empty where it is left out.
pub open spec fn value_of(all: Seq<(Parameter, Seq<char>)>, key: Parameter) -> Seq<char>
    decreases all.len(),
{
    if all.len() == 0 {
        Seq::empty()
    } else if all.last().0 == key {
        all.last().1
    } else {
        value_of(all.drop_last(), key)
    }
}

/// Whether a value can be written in quotation marks between commas.
pub open spec fn plain(value: Seq<char>) -> bool {
    forall|i: int| 0 <= i < value.len() ==> #[trigger] value[i] != ',' && value[i] != '"'
}

/// The challenge with this parameter.
spec fn with_parameter(c: ChallengeView, key: Parameter, value: Seq<char>) -> ChallengeView {
    match key {
        Parameter::Realm => ChallengeView { realm: value, ..c },
        Parameter::Service => ChallengeView { service: value, ..c },
        Parameter::Scope => ChallengeView { scope: value, ..c },
    }
}

/// A value in quotation marks is read as the value.
proof fn lemma_quotes_go(value: Seq<char>)
    requires
        plain(value),
    ensures
        trimmed(seq!['"'] + value + seq!['"'], Class::Only('"')) == value,
{
    let class = Class::Only('"');
    let quoted = seq!['"'] + value + seq!['"'];
    let rest = value + seq!['"'];
    assert(quoted.drop_first() =~= rest);
    assert(trimmed_start(quoted, class) == trimmed_start(rest, class));
    if value.len() == 0 {
        assert(rest.drop_first() =~= Seq::<char>::empty());
        assert(trimmed_start(rest.drop_first(), class) =~= value);
        assert(trimmed_end(value, class) == value);
    } else {
        assert(rest[0] == value[0]);
        assert(rest.drop_last() =~= value);
        assert(trimmed_end(rest, class) == trimmed_end(value, class));
    }
}

/// A parameter is read as what it was written from, whether a space stands before it or not.
proof fn lemma_parameter_is_read(c: ChallengeView, key: Parameter, value: Seq<char>, spaced: bool)
    requires
        plain(value),
    ensures
        ({
            let text = parameter_text(key, value);
            let piece = if spaced {
                seq![' '] + text
            } else {
                text
            };
            read_parameter(c, piece) == with_parameter(c, key, value)
        }),
{
    let text = parameter_text(key, value);
    let piece = if spaced {
        seq![' '] + text
    } else {
        text
    };
    reveal_strlit("realm=");
    reveal_strlit("service=");
    reveal_strlit("scope=");
    assert(text[0] == label(key)[0] && text[1] == label(key)[1]);
    assert(text.last() == '"');
    assert(trimmed_start(text, Class::White) == text);
    assert(trimmed_end(text, Class::White) == text);
    if spaced {
        assert(piece.drop_first() =~= text);
        assert(trimmed_start(piece, Class::White) == text);
    }
    assert(bare(piece) == text);
    let n = label(key).len() as int;
    assert(text.take(n) =~= label(key));
    assert(text.skip(n) =~= seq!['"'] + value + seq!['"']);
    lemma_quotes_go(value);
    match key {
        Parameter::Realm => {},
        Parameter::Service => {
            assert("realm="@.len() <= text.len() ==> text.take(6)[0] == 's');
        },
        Parameter::Scope => {
            assert("realm="@.len() <= text.len() ==> text.take(6)[0] == 's');
            assert("service="@.len() <= text.len() ==> text.take(8)[1] == 'c');
        },
    }
}

/// The pieces of the parameters are read as the parameters.
proof fn lemma_parameters_are_read(all: Seq<(Parameter, Seq<char>)>, spaced: Seq<bool>)
    requires
        all.len() > 0,
        spaced.len() == all.len(),
        forall|i: int| 0 <= i < all.len() ==> plain((#[trigger] all[i]).1),
    ensures
        read_parameters(pieces(parameters_text(all, spaced), Class::Only(','))) == (ChallengeView {
            realm: value_of(all, Parameter::Realm),
            service: value_of(all, Parameter::Service),
            scope: value_of(all, Parameter::Scope),
        }),
    decreases all.len(),
{
    let class = Class::Only(',');
    let (key, value) = all.last();
    let before = all.drop_last();
    let text = parameter_text(key, value);
    let space = all.len() > 1 && spaced[all.len() - 1];
    let piece = if space {
        seq![' '] + text
    } else {
        text
    };
    assert(plain(value));
    assert forall|i: int| 0 <= i < piece.len() implies !class.has(#[trigger] piece[i]) by {
        reveal_strlit("realm=");
        reveal_strlit("service=");
        reveal_strlit("scope=");
        let k = if space {
            i - 1
        } else {
            i
        };
        let n = label(key).len();
        if n + 1 <= k < n + 1 + value.len() {
            assert(text[k] == value[k - n - 1]);
        }
    }
    lemma_one_piece(piece, class);
    if all.len() == 1 {
        assert(seq![piece].drop_last() =~= Seq::<Seq<char>>::empty());
        assert(before =~= Seq::<(Parameter, Seq<char>)>::empty());
        let nothing = read_parameters(Seq::empty());
        lemma_parameter_is_read(nothing, key, value, false);
        assert(parameters_text(all, spaced) == piece);
        assert(seq![piece].last() == piece);
        assert(read_parameters(seq![piece]) == with_parameter(nothing, key, value));
        assert(value_of(before, Parameter::Realm) == nothing.realm);
        assert(value_of(before, Parameter::Service) == nothing.service);
        assert(value_of(before, Parameter::Scope) == nothing.scope);
    } else {
        let front = parameters_text(before, spaced);
        let shorter = spaced.drop_last();
        lemma_texts_agree(before, spaced, shorter);
        lemma_parameters_are_read(before, shorter);
        assert(front + separator(space) + text =~= front.push(',') + piece);
        lemma_pieces_at(front, ',', piece);
        let p = pieces(front, class) + seq![piece];
        assert(p.drop_last() =~= pieces(front, class));
        lemma_parameter_is_read(read_parameters(pieces(front, class)), key, value, space);
    }
}

/// The text of parameters does not depend on what is said of others.
proof fn lemma_texts_agree(all: Seq<(Parameter, Seq<char>)>, a: Seq<bool>, b: Seq<bool>)
    requires
        all.len() <= a.len(),
        all.len() <= b.len(),
        forall|i: int| 0 <= i < all.len() ==> #[trigger] a[i] == b[i],
    ensures
        parameters_text(all, a) == parameters_text(all, b),
    decreases all.len(),
{
    if all.len() > 1 {
        lemma_texts_agree(all.drop_last(), a, b);
        assert(a[all.len() - 1] == b[all.len() - 1]);
    }
}

/// The value of a parameter is the one that it was given; it is empty where the parameter is left
/// out.
proof fn lemma_values(all: Seq<(Parameter, Seq<char>)>)
    requires
        forall|i: int, j: int| 0 <= i < j < all.len() ==> (#[trigger] all[i]).0 != (#[trigger] all[j]).0,
    ensures
        forall|i: int| 0 <= i < all.len() ==> value_of(all, (#[trigger] all[i]).0) == all[i].1,
        forall|key: Parameter|
            (forall|i: int| 0 <= i < all.len() ==> (#[trigger] all[i]).0 != key) ==> (
            #[trigger] value_of(all, key)).len() == 0,
    decreases all.len(),
{
    if all.len() > 0 {
        let before = all.drop_last();
        lemma_values(before);
        assert forall|i: int| 0 <= i < all.len() implies value_of(all, (#[trigger] all[i]).0)
            == all[i].1 by {
            if i < before.len() {
                assert(before[i] == all[i]);
                assert(all[i].0 != all[all.len() - 1].0);
            }
        }
        assert forall|key: Parameter|
            (forall|i: int| 0 <= i < all.len() ==> (#[trigger] all[i]).0 != key) implies (
        #[trigger] value_of(all, key)).len() == 0 by {
            assert(all[all.len() - 1].0 != key);
            assert forall|i: int| 0 <= i < before.len() implies (#[trigger] before[i]).0 != key by {
                assert(before[i] == all[i]);
            }
            assert(value_of(before, key).len() == 0);
        }
    }
}

/// A challenge that is written from parameters, each once and in any order, with commas and perhaps
/// spaces between them, reads back as these; a service or a scope that is left out reads as empty.
/// Without a realm, or without `Bearer`, there is no challenge.
pub proof fn law_challenge_reads_back(all: Seq<(Parameter, Seq<char>)>, spaced: Seq<bool>)
    requires
        spaced.len() == all.len(),
        forall|i: int, j: int| 0 <= i < j < all.len() ==> (#[trigger] all[i]).0 != (#[trigger] all[j]).0,
        forall|i: int| 0 <= i < all.len() ==> plain((#[trigger] all[i]).1),
    ensures
        forall|i: int| 0 <= i < all.len() ==> value_of(all, (#[trigger] all[i]).0) == all[i].1,
        forall|key: Parameter|
            (forall|i: int| 0 <= i < all.len() ==> (#[trigger] all[i]).0 != key) ==> (
            #[trigger] value_of(all, key)).len() == 0,
        value_of(all, Parameter::Realm).len() > 0 ==> triple(
            challenge("Bearer "@ + parameters_text(all, spaced)),
        ) == Some(
            (
                value_of(all, Parameter::Realm),
                value_of(all, Parameter::Service),
                value_of(all, Parameter::Scope),
            ),
        ),
        value_of(all, Parameter::Realm).len() == 0 ==> challenge(
            "Bearer "@ + parameters_text(all, spaced),
        ) is None,
        forall|header: Seq<char>|
            !starts(header, "Bearer "@) ==> (#[trigger] challenge(header)) is None,
        challenge(parameters_text(all, spaced)) is None,
{
    let text = parameters_text(all, spaced);
    let header = "Bearer "@ + text;
    let n = "Bearer "@.len() as int;
    assert(header.take(n) =~= "Bearer "@);
    assert(header.skip(n) =~= text);
    lemma_values(all);
    if all.len() > 0 {
        lemma_parameters_are_read(all, spaced);
        lemma_first_letter(all, spaced);
    } else {
        let none = seq![Seq::<char>::empty()];
        assert(pieces(text, Class::Only(',')) =~= none);
        assert(none.drop_last() =~= Seq::<Seq<char>>::empty());
        assert(none.last() =~= Seq::<char>::empty());
        assert(bare(none.last()) =~= Seq::<char>::empty());
        assert(after_prefix(Seq::<char>::empty(), "realm="@) is None) by {
            reveal_strlit("realm=");
        }
        assert(after_prefix(Seq::<char>::empty(), "service="@) is None) by {
            reveal_strlit("service=");
        }
        assert(after_prefix(Seq::<char>::empty(), "scope="@) is None) by {
            reveal_strlit("scope=");
        }
        assert(read_parameters(none.drop_last()).realm.len() == 0);
        assert(read_parameters(none) == read_parameters(none.drop_last()));
    }
    reveal_strlit("Bearer ");
    if starts(text, "Bearer "@) {
        assert(text.take(7)[0] == 'B');
    }
}

/// The text of parameters starts with a small letter.
proof fn lemma_first_letter(all: Seq<(Parameter, Seq<char>)>, spaced: Seq<bool>)
    requires
        all.len() > 0,
    ensures
        parameters_text(all, spaced).len() > 0,
        parameters_text(all, spaced)[0] == 'r' || parameters_text(all, spaced)[0] == 's',
    decreases all.len(),
{
    reveal_strlit("realm=");
    reveal_strlit("service=");
    reveal_strlit("scope=");
    if all.len() > 1 {
        lemma_first_letter(all.drop_last(), spaced);
    }
}

/// Reads realm, service and scope from a `Www-Authenticate` header.
pub fn parse_www_authenticate(header: &str) -> (r: Option<(String, String, String)>)
    ensures
        r.deep_view() == triple(challenge(header@)),
{
    let rest = match strip_prefix(header, "Bearer ") {
        Some(rest) => rest,
        None => {
            return None;
        },
    };
    let all = split(rest.as_str(), Class::Only(','));
    let ghost p = all.deep_view();
    let mut realm = String::new();
    let mut service = String::new();
    let mut scope = String::new();
    let mut i: usize = 0;
    proof {
        assert(p.take(0) =~= Seq::<Seq<char>>::empty());
    }
    while i < all.len()
        invariant
            i <= all@.len(),
            p == all.deep_view(),
            read_parameters(p.take(i as int)) == (ChallengeView {
                realm: realm@,
                service: service@,
                scope: scope@,
            }),
        decreases all@.len() - i,
    {
        proof {
            assert(p.take(i + 1).drop_last() =~= p.take(i as int));
            assert(p.take(i + 1).last() == all@[i as int]@);
        }
        let part = trim(all[i].as_str());
        if let Some(v) = strip_prefix(part.as_str(), "realm=") {
            realm = trim_both(v.as_str(), Class::Only('"'));
        } else if let Some(v) = strip_prefix(part.as_str(), "service=") {
            service = trim_both(v.as_str(), Class::Only('"'));
        } else if let Some(v) = strip_prefix(part.as_str(), "scope=") {
            scope = trim_both(v.as_str(), Class::Only('"'));
        }
        i = i + 1;
    }
    proof {
        assert(p.take(p.len() as int) =~= p);
    }
    if realm.as_str().is_empty() {
        None
    } else {
        Some((realm, service, scope))
    }
}

/// The address that a token is fetched from.
pub open spec fn token_url_of(c: ChallengeView) -> Seq<char> {
    let start = c.realm + "?"@;
    let middle = if c.service.len() == 0 {
        start
    } else {
        start + "service="@ + c.service + "&"@
    };
    if c.scope.len() == 0 {
        middle
    } else {
        middle + "scope="@ + c.scope
    }
}

/// The address that a token is fetched from.
pub fn token_url(realm: &str, service: &str, scope: &str) -> (r: String)
    ensures
        r@ == token_url_of(ChallengeView { realm: realm@, service: service@, scope: scope@ }),
{
    let mut url = glue(realm, "?");
    if !service.is_empty() {
        url = glue3(url.as_str(), "service=", service);
        url = glue(url.as_str(), "&");
    }
    if !scope.is_empty() {
        url = glue3(url.as_str(), "scope=", scope);
    }
    url
}

/// The value of the `Authorization` header for a token.
pub fn bearer(token: &str) -> (r: String)
    ensures
        r@ == "Bearer "@ + token@,
{
    glue("Bearer ", token)
}

/// What matters of an answer: its status, and two of its headers as far as they are text.
#[derive(Debug)]
pub struct Reply {
    pub status: u16,
    pub www_authenticate: Option<String>,
    pub location: Option<String>,
}

/// Whether the status tells success.
pub open spec fn success(status: u16) -> bool {
    200 <= status <= 299
}

/// Whether the status tells success.
pub fn is_success(status: u16) -> (r: bool)
    ensures
        r == success(status),
{
    200 <= status && status <= 299
}

/// What to do with an answer.
#[derive(Debug)]
pub enum Next {
    /// Hand it on.
    Accept,
    /// Fetch a token here, and make the request again with it.
    FetchToken(String),
    /// Go on to this address, without the token.
    Follow(String),
    /// Give up.
    Fail(Error),
}

/// The mathematical value of a `Next`.
pub enum NextView {
    Accept,
    FetchToken(Seq<char>),
    Follow(Seq<char>),
    Fail(ErrorView),
}

impl DeepView for Next {
    type V = NextView;

    open spec fn deep_view(&self) -> NextView {
        match self {
            Next::Accept => NextView::Accept,
            Next::FetchToken(s) => NextView::FetchToken(s@),
            Next::Follow(s) => NextView::Follow(s@),
            Next::Fail(e) => NextView::Fail(e.deep_view()),
        }
    }
}

/// What to do with an answer that may be a redirection.
pub open spec fn redirected(status: u16, location: Option<Seq<char>>) -> NextView {
    if 300 <= status <= 399 {
        match location {
            Some(to) => NextView::Follow(to),
            None => NextView::Fail(ErrorView::Plain(Fault::NoLocation)),
        }
    } else {
        NextView::Accept
    }
}

/// What to do with the first answer to a request for `url`: a refusal that carries a challenge asks
/// for a token.
pub open spec fn answered(
    url: Seq<char>,
    status: u16,
    www_authenticate: Option<Seq<char>>,
    location: Option<Seq<char>>,
) -> NextView {
    if status == 401 {
        let c = match www_authenticate {
            Some(header) => challenge(header),
            None => None,
        };
        match c {
            Some(c) => NextView::FetchToken(token_url_of(c)),
            None => NextView::Fail(ErrorView::About(Complaint::Unauthorized, url)),
        }
    } else {
        redirected(status, location)
    }
}

/// Decides what to do with an answer that may be a redirection.
pub fn follow_redirects(reply: &Reply) -> (r: Next)
    ensures
        r.deep_view() == redirected(reply.status, reply.location.deep_view()),
{
    if 300 <= reply.status && reply.status <= 399 {
        match &reply.location {
            Some(to) => Next::Follow(to.clone()),
            None => Next::Fail(Error::Plain(Fault::NoLocation)),
        }
    } else {
        Next::Accept
    }
}

/// Decides what to do with the first answer to a request for `url`. The answer to the request that
/// is made again with a token goes to `follow_redirects`, and the answer from the address that a
/// redirection leads to is handed on.
pub fn registry_request(url: &str, reply: &Reply) -> (r: Next)
    ensures
        r.deep_view() == answered(
            url@,
            reply.status,
            reply.www_authenticate.deep_view(),
            reply.location.deep_view(),
        ),
{
    if reply.status == 401 {
        if let Some(header) = &reply.www_authenticate {
            if let Some((realm, service, scope)) = parse_www_authenticate(header.as_str()) {
                return Next::FetchToken(
                    token_url(realm.as_str(), service.as_str(), scope.as_str()),
                );
            }
        }
        Next::Fail(about(Complaint::Unauthorized, url))
    } else {
        follow_redirects(reply)
    }
}

/// How an attempt at a request went.
#[derive(Debug)]
pub enum Attempt {
    /// An answer with this status, and how the status is written.
    Answered { status: u16, shown: String },
    /// No answer, and why.
    Failed(Error),
}

/// What to do after an attempt.
#[derive(Debug)]
pub enum Retry {
    /// Hand the answer on.
    Accept,
    /// Wait so many seconds and try again.
    Again { delay_secs: u64 },
    /// Give up.
    GiveUp(Error),
}

/// Whether an answer with this status is worth another attempt: mirrors lose files for a while, and
/// servers fail.
pub open spec fn transient(status: u16) -> bool {
    status == 404 || 500 <= status <= 599
}

/// The seconds to wait before the attempt with this number, counted from zero.
pub open spec fn delay_before(attempt: u32) -> nat {
    vstd::arithmetic::power2::pow2(attempt as nat)
}

/// Whether an attempt is worth another.
pub open spec fn worth_another(result: Attempt) -> bool {
    match result {
        Attempt::Answered { status, .. } => !success(status) && transient(status),
        Attempt::Failed(_) => true,
    }
}

/// Why an attempt that is worth another has failed.
pub open spec fn reason(result: Attempt, url: Seq<char>) -> ErrorView {
    match result {
        Attempt::Answered { shown, .. } => ErrorView::Between(Conflict::HttpStatus, shown@, url),
        Attempt::Failed(e) => e.deep_view(),
    }
}

/// Decides what to do after the attempt with this number, counted from zero, at a request for
/// `url`.
pub fn registry_request_retry(url: &str, attempt: u32, result: Attempt) -> (r: Retry)
    requires
        attempt < MAX_REQUEST_ATTEMPTS,
    ensures
        !worth_another(result) ==> r is Accept,
        worth_another(result) && attempt + 1 < MAX_REQUEST_ATTEMPTS ==> r == (Retry::Again {
            delay_secs: delay_before((attempt + 1) as u32) as u64,
        }),
        worth_another(result) && attempt + 1 == MAX_REQUEST_ATTEMPTS ==> (r matches Retry::GiveUp(e)
            && e.deep_view() == reason(result, url@)),
{
    proof {
        vstd::arithmetic::power2::lemma2_to64();
    }
    let error = match result {
        Attempt::Answered { status, shown } => {
            if is_success(status) || !(status == 404 || (500 <= status && status <= 599)) {
                return Retry::Accept;
            }
            Error::Between(Conflict::HttpStatus, shown, url.to_owned())
        },
        Attempt::Failed(e) => e,
    };
    if attempt == 0 {
        Retry::Again { delay_secs: 2 }
    } else if attempt == 1 {
        Retry::Again { delay_secs: 4 }
    } else {
        Retry::GiveUp(error)
    }
}

/// The registries that an image is pulled from, in order, and whether what a failed pull has left
/// is removed.
pub struct PullPlan {
    pub registries: Vec<String>,
    pub clean: bool,
}

/// The registries that an image is pulled from: an image of one of several mirrors is tried at all
/// of them.
pub open spec fn registries_for(image: ImageView, mirrors: Seq<Seq<char>>) -> Seq<Seq<char>> {
    if mirrors.contains(image.registry) && mirrors.len() > 1 {
        mirrors
    } else {
        seq![image.registry]
    }
}

/// Whether `list` has `s` as a member.
pub fn is_member(list: &Vec<String>, s: &str) -> (r: bool)
    ensures
        r == list.deep_view().contains(s@),
{
    let ghost l = list.deep_view();
    let mut i: usize = 0;
    while i < list.len()
        invariant
            i <= list@.len(),
            l == list.deep_view(),
            forall|j: int| 0 <= j < i ==> #[trigger] l[j] != s@,
        decreases list@.len() - i,
    {
        if same(list[i].as_str(), s) {
            proof {
                assert(l[i as int] == s@);
            }
            return true;
        }
        i = i + 1;
    }
    false
}

/// Decides where an image is pulled from.
pub fn pull_image(image: &ImageReference, mirrors: Vec<String>) -> (r: PullPlan)
    ensures
        r.registries.deep_view() == registries_for(image.deep_view(), mirrors.deep_view()),
        r.clean == (mirrors.deep_view().contains(image.registry@) && mirrors@.len() > 1),
{
    if is_member(&mirrors, image.registry.as_str()) && mirrors.len() > 1 {
        PullPlan { registries: mirrors, clean: true }
    } else {
        let mut registries: Vec<String> = Vec::new();
        registries.push(image.registry.clone());
        proof {
            assert(registries.deep_view() =~= seq![image.registry@]);
        }
        PullPlan { registries, clean: false }
    }
}

/// What follows from a pull from one of the registries.
#[derive(Debug)]
pub enum MirrorStep {
    /// The image is there.
    Done,
    /// Pull it from this registry.
    Next(String),
    /// Give up.
    GiveUp(Error),
}

/// Decides what follows from the pull from the registry at position `tried`: the first success
/// counts, a failure leads to the next registry, and the last failure is the one that is told.
pub fn after_pull(plan: &PullPlan, tried: usize, pulled: Result<(), Error>) -> (r: MirrorStep)
    requires
        tried < plan.registries@.len(),
    ensures
        match pulled {
            Ok(_) => r is Done,
            Err(e) => if tried + 1 < plan.registries@.len() {
                r matches MirrorStep::Next(registry) && registry@ == plan.registries@[tried + 1]@
            } else {
                r matches MirrorStep::GiveUp(f) && f.deep_view() == e.deep_view()
            },
        },
{
    match pulled {
        Ok(_) => MirrorStep::Done,
        Err(e) => {
            if plan.registries.len() - tried > 1 {
                MirrorStep::Next(plan.registries[tried + 1].clone())
            } else {
                MirrorStep::GiveUp(e)
            }
        },
    }
}

/// The address of a manifest.
pub fn manifest_url(registry: &str, repo: &str, reference: &str) -> (r: String)
    ensures
        r@ == "https://"@ + registry@ + "/v2/"@ + repo@ + "/manifests/"@ + reference@,
{
    let start = glue3("https://", registry, "/v2/");
    let middle = glue3(start.as_str(), repo, "/manifests/");
    glue(middle.as_str(), reference)
}

/// The address of a layer.
pub fn blob_url(registry: &str, repo: &str, digest: &str) -> (r: String)
    ensures
        r@ == "https://"@ + registry@ + "/v2/"@ + repo@ + "/blobs/"@ + digest@,
{
    let start = glue3("https://", registry, "/v2/");
    let middle = glue3(start.as_str(), repo, "/blobs/");
    glue(middle.as_str(), digest)
}

/// The kinds of manifest that a first request accepts.
pub fn manifest_accept() -> (r: &'static str)
    ensures
        r@
            == "application/vnd.docker.distribution.manifest.v2+json, application/vnd.docker.distribution.manifest.list.v2+json, application/vnd.oci.image.manifest.v1+json, application/vnd.oci.image.index.v1+json"@,
{
    "application/vnd.docker.distribution.manifest.v2+json, application/vnd.docker.distribution.manifest.list.v2+json, application/vnd.oci.image.manifest.v1+json, application/vnd.oci.image.index.v1+json"
}

/// The kinds of manifest that the request for one platform accepts.
pub fn platform_accept() -> (r: &'static str)
    ensures
        r@
            == "application/vnd.docker.distribution.manifest.v2+json, application/vnd.oci.image.manifest.v1+json"@,
{
    "application/vnd.docker.distribution.manifest.v2+json, application/vnd.oci.image.manifest.v1+json"
}

/// A layer of an image.
#[derive(Debug)]
pub struct ManifestLayer {
    pub digest: String,
}

/// What an image runs on.
#[derive(Debug)]
pub struct Platform {
    pub architecture: String,
    pub os: String,
}

/// The manifest for one platform.
#[derive(Debug)]
pub struct ManifestDescriptor {
    pub digest: String,
    pub platform: Option<Platform>,
}

/// The mathematical value of a `ManifestDescriptor`.
pub struct DescriptorView {
    pub digest: Seq<char>,
    pub platform: Option<(Seq<char>, Seq<char>)>,
}

impl DeepView for ManifestDescriptor {
    type V = DescriptorView;

    open spec fn deep_view(&self) -> DescriptorView {
        DescriptorView {
            digest: self.digest@,
            platform: match self.platform {
                Some(p) => Some((p.architecture@, p.os@)),
                None => None,
            },
        }
    }
}

/// A manifest: the layers of an image, or the manifests of its platforms.
#[derive(Debug)]
pub struct Manifest {
    pub layers: Vec<ManifestLayer>,
    pub manifests: Vec<ManifestDescriptor>,
}

/// How registries call an architecture.
pub open spec fn registry_arch(arch: Seq<char>) -> Seq<char> {
    if arch == "aarch64"@ {
        "arm64"@
    } else if arch == "x86_64"@ {
        "amd64"@
    } else {
        arch
    }
}

/// How registries call an architecture.
pub fn target_arch(arch: &str) -> (r: String)
    ensures
        r@ == registry_arch(arch@),
{
    if same(arch, "aarch64") {
        "arm64".to_owned()
    } else if same(arch, "x86_64") {
        "amd64".to_owned()
    } else {
        arch.to_owned()
    }
}

/// Whether a manifest is for Linux on the architecture.
pub open spec fn fits(d: DescriptorView, arch: Seq<char>) -> bool {
    d.platform == Some((arch, "linux"@))
}

/// The position of the first manifest that fits; the length of `s` where none does.
pub open spec fn first_fit(s: Seq<DescriptorView>, arch: Seq<char>) -> int
    decreases s.len(),
{
    if s.len() == 0 || fits(s[0], arch) {
        0
    } else {
        1 + first_fit(s.drop_first(), arch)
    }
}

/// The digest of the manifest to fetch: the first that fits, or else the first of all.
pub open spec fn chosen_digest(s: Seq<DescriptorView>, arch: Seq<char>) -> Option<Seq<char>> {
    let k = first_fit(s, registry_arch(arch));
    if s.len() == 0 {
        None
    } else if k < s.len() {
        Some(s[k].digest)
    } else {
        Some(s[0].digest)
    }
}

/// The first position that fits is determined by what stands before it.
proof fn lemma_first_fit(s: Seq<DescriptorView>, arch: Seq<char>, k: int)
    requires
        0 <= k <= s.len(),
        k < s.len() ==> fits(s[k], arch),
        forall|i: int| 0 <= i < k ==> !fits(#[trigger] s[i], arch),
    ensures
        first_fit(s, arch) == k,
    decreases s.len(),
{
    if k > 0 {
        let t = s.drop_first();
        assert(!fits(s[0], arch));
        assert forall|i: int| 0 <= i < k - 1 implies !fits(#[trigger] t[i], arch) by {
            assert(t[i] == s[i + 1]);
        }
        lemma_first_fit(t, arch, k - 1);
    }
}

/// Chooses the manifest to fetch for the architecture; `None` where the list is empty, and the
/// manifest at hand is the one that names the layers.
pub fn choose_manifest(manifests: &Vec<ManifestDescriptor>, arch: &str) -> (r: Option<String>)
    ensures
        r.deep_view() == chosen_digest(manifests.deep_view(), arch@),
{
    if manifests.len() == 0 {
        return None;
    }
    let ghost s = manifests.deep_view();
    let target = target_arch(arch);
    let mut i: usize = 0;
    while i < manifests.len()
        invariant
            i <= manifests@.len(),
            s == manifests.deep_view(),
            target@ == registry_arch(arch@),
            s.len() > 0,
            forall|j: int| 0 <= j < i ==> !fits(#[trigger] s[j], target@),
        decreases manifests@.len() - i,
    {
        proof {
            assert(s[i as int] == manifests@[i as int].deep_view());
        }
        if let Some(p) = &manifests[i].platform {
            if same(p.architecture.as_str(), target.as_str()) && same(p.os.as_str(), "linux") {
                proof {
                    lemma_first_fit(s, target@, i as int);
                }
                return Some(manifests[i].digest.clone());
            }
        }
        i = i + 1;
    }
    proof {
        lemma_first_fit(s, target@, s.len() as int);
        assert(s[0] == manifests@[0].deep_view());
    }
    Some(manifests[0].digest.clone())
}

/// What was fetched, for the sentence that tells a failure.
pub enum Fetched<'a> {
    Manifest { url: &'a str },
    ResolvedManifest,
    Layer { digest: &'a str },
}

/// The failure to fetch something, of which the status is written as `shown`.
pub open spec fn fetch_error(what: Fetched, shown: Seq<char>) -> ErrorView {
    match what {
        Fetched::Manifest { url } => ErrorView::Between(Conflict::ManifestStatus, shown, url@),
        Fetched::ResolvedManifest => ErrorView::About(Complaint::ResolvedManifestStatus, shown),
        Fetched::Layer { digest } => ErrorView::Between(Conflict::LayerStatus, digest@, shown),
    }
}

/// Checks that something was fetched with success.
pub fn check_fetched(what: Fetched, status: u16, shown: &str) -> (r: Result<(), Error>)
    ensures
        r is Ok <==> success(status),
        r matches Err(e) ==> e.deep_view() == fetch_error(what, shown@),
{
    if is_success(status) {
        return Ok(());
    }
    Err(
        match what {
            Fetched::Manifest { url } => Error::Between(
                Conflict::ManifestStatus,
                shown.to_owned(),
                url.to_owned(),
            ),
            Fetched::ResolvedManifest => about(Complaint::ResolvedManifestStatus, shown),
            Fetched::Layer { digest } => Error::Between(
                Conflict::LayerStatus,
                digest.to_owned(),
                shown.to_owned(),
            ),
        },
    )
}

/// Whether the eight bytes of a digest that name a layer file can be cut out of it.
pub open spec fn can_name_file(digest: Seq<char>) -> bool {
    let bytes = encode_utf8(digest);
    bytes.len() >= 15 && is_char_boundary(bytes, 7) && is_char_boundary(bytes, 15)
}

/// The file that a layer is downloaded to: named by eight bytes of its digest, from the eighth.
pub fn layer_file(digest: &str) -> (r: String)
    requires
        can_name_file(digest@),
    ensures
        r@ == "layer-"@ + decode_utf8(encode_utf8(digest@).subrange(7, 15)) + ".tar.gz"@,
{
    let (start, _) = digest.split_at(15);
    proof {
        let whole = encode_utf8(digest@);
        let bytes = encode_utf8(start@);
        vstd::utf8::encode_utf8_valid_utf8(digest@);
        vstd::utf8::encode_utf8_valid_utf8(start@);
        vstd::utf8::is_char_boundary_iff_not_is_continuation_byte(whole, 7);
        vstd::utf8::is_char_boundary_iff_not_is_continuation_byte(bytes, 7);
        assert(bytes[7] == whole[7]);
    }
    let (_, part) = start.split_at(7);
    proof {
        let whole = encode_utf8(digest@);
        assert(encode_utf8(part@) =~= whole.subrange(7, 15));
        vstd::utf8::encode_utf8_decode_utf8(part@);
    }
    glue3("layer-", part, ".tar.gz")
}

/// A request is made three times at most: with what is worth another attempt, the first two
/// attempts lead to a second and a third after two and four seconds, and the third is the last.
pub proof fn law_three_attempts(attempt: u32)
    requires
        attempt < MAX_REQUEST_ATTEMPTS,
    ensures
        attempt + 1 < MAX_REQUEST_ATTEMPTS <==> attempt <= 1,
        delay_before(1) == 2,
        delay_before(2) == 4,
{
    vstd::arithmetic::power2::lemma2_to64();
}

/// The registry that a reference names is kept, whatever mirror is set.
pub proof fn law_named_registry_is_kept(s: Seq<char>, mirror: Option<Seq<char>>)
    requires
        cut_once(s, Class::Only('/')) matches Some((first, _)) && (holds(first, Class::Only('.')) || holds(
            first,
            Class::Only(':'),
        )),
    ensures
        cut_once(s, Class::Only('/')) matches Some((first, _)) ==> image_of(s, mirror).registry
            == first,
        image_of(s, mirror) == image_of(s, None),
{
}

/// Of manifests for platforms the first that is for Linux on the architecture is chosen, by the name
/// that registries have for it, and the first of all where none is; where there are none, none is.
pub proof fn law_platform_is_chosen(
    s: Seq<DescriptorView>,
    arch: Seq<char>,
    name: Seq<char>,
    i: int,
)
    requires
        name == if arch == "aarch64"@ {
            "arm64"@
        } else if arch == "x86_64"@ {
            "amd64"@
        } else {
            arch
        },
        s.len() > 0 ==> 0 <= i < s.len(),
        s.len() > 0 ==> (s[i].platform == Some((name, "linux"@)) && forall|j: int|
            0 <= j < i ==> (#[trigger] s[j]).platform != Some((name, "linux"@))) || (i == 0
            && forall|j: int|
            0 <= j < s.len() ==> (#[trigger] s[j]).platform != Some((name, "linux"@))),
    ensures
        s.len() > 0 ==> chosen_digest(s, arch) == Some(s[i].digest),
        s.len() == 0 ==> chosen_digest(s, arch) is None,
{
    if s.len() > 0 {
        if s[i].platform == Some((name, "linux"@)) {
            lemma_first_fit(s, name, i);
        } else {
            lemma_first_fit(s, name, s.len() as int);
        }
    }
}

/// A reference without a registry is an image of the library of the first mirror: of the one that is
/// set, or else of the first default one. Its tag follows the first colon and is `latest` where it
/// has none.
pub proof fn law_plain_reference_is_of_the_library(
    repo: Seq<char>,
    tag: Seq<char>,
    mirror: Option<Seq<char>>,
)
    requires
        forall|i: int| 0 <= i < repo.len() ==> #[trigger] repo[i] != '/' && repo[i] != ':',
        forall|i: int| 0 <= i < tag.len() ==> #[trigger] tag[i] != '/',
    ensures
        ({
            let registry = match mirror {
                Some(m) => m,
                None => "docker.m.daocloud.io"@,
            };
            &&& image_of(repo, mirror) == (ImageView {
                registry,
                repo: "library/"@ + repo,
                tag: "latest"@,
            })
            &&& image_of(repo + seq![':'] + tag, mirror) == (ImageView {
                registry,
                repo: "library/"@ + repo,
                tag,
            })
        }),
{
    reveal_strlit("library/");
    let slash = Class::Only('/');
    let colon = Class::Only(':');
    let s = repo + seq![':'] + tag;
    assert forall|i: int| 0 <= i < s.len() implies !slash.has(#[trigger] s[i]) by {
        if i < repo.len() {
            assert(s[i] == repo[i]);
        } else if i > repo.len() {
            assert(s[i] == tag[i - repo.len() - 1]);
        }
    }
    assert forall|i: int| 0 <= i < repo.len() implies !slash.has(#[trigger] repo[i]) by {}
    law_cut_at_the_first(s, '/', s, slash);
    law_cut_at_the_first(repo, '/', s, slash);
    let r = "library/"@ + repo;
    assert forall|i: int| 0 <= i < r.len() implies !colon.has(#[trigger] r[i]) by {
        if i < 8 {
            assert(r[i] == "library/"@[i]);
        } else {
            assert(r[i] == repo[i - 8]);
        }
    }
    law_cut_at_the_first(r, ':', tag, colon);
    assert("library/"@ + s =~= r + seq![':'] + tag);
}

/// A reference with a registry, which shows by a dot or a colon before the first slash, is taken from
/// there, whatever mirror is set; and one with a slash but no such mark is of the library still.
pub proof fn law_reference_with_a_slash(
    first: Seq<char>,
    repo: Seq<char>,
    tag: Seq<char>,
    mirror: Option<Seq<char>>,
)
    requires
        forall|i: int| 0 <= i < first.len() ==> #[trigger] first[i] != '/',
        forall|i: int| 0 <= i < repo.len() ==> #[trigger] repo[i] != ':',
    ensures
        ({
            let named = exists|i: int|
                0 <= i < first.len() && (#[trigger] first[i] == '.' || first[i] == ':');
            let s = first + seq!['/'] + (repo + seq![':'] + tag);
            &&& named ==> image_of(s, mirror) == (ImageView { registry: first, repo, tag })
            &&& named ==> image_of(first + seq!['/'] + repo, mirror) == (ImageView {
                registry: first,
                repo,
                tag: "latest"@,
            })
            &&& !named ==> image_of(s, mirror) == (ImageView {
                registry: match mirror {
                    Some(m) => m,
                    None => "docker.m.daocloud.io"@,
                },
                repo: "library/"@ + first + "/"@ + repo,
                tag,
            })
        }),
{
    reveal_strlit("library/");
    reveal_strlit("/");
    let slash = Class::Only('/');
    let colon = Class::Only(':');
    let dot = Class::Only('.');
    let rest = repo + seq![':'] + tag;
    let s = first + seq!['/'] + rest;
    assert forall|i: int| 0 <= i < first.len() implies !slash.has(#[trigger] first[i]) by {}
    assert forall|i: int| 0 <= i < repo.len() implies !colon.has(#[trigger] repo[i]) by {}
    law_cut_at_the_first(first, '/', rest, slash);
    law_cut_at_the_first(first, '/', repo, slash);
    law_cut_at_the_first(repo, ':', tag, colon);
    lemma_first_of(first, dot);
    lemma_first_of(first, colon);
    if exists|i: int| 0 <= i < first.len() && (#[trigger] first[i] == '.' || first[i] == ':') {
        let i = choose|i: int| 0 <= i < first.len() && (#[trigger] first[i] == '.' || first[i] == ':');
        assert(dot.has(first[i]) || colon.has(first[i]));
        assert(holds(first, dot) || holds(first, colon));
    } else {
        assert(!holds(first, dot)) by {
            if holds(first, dot) {
                assert(first[first_of(first, dot)] == '.');
            }
        }
        assert(!holds(first, colon)) by {
            if holds(first, colon) {
                assert(first[first_of(first, colon)] == ':');
            }
        }
        let r = "library/"@ + first + "/"@ + repo;
        assert("/"@ =~= seq!['/']);
        assert("library/"@ + s =~= r + seq![':'] + tag);
        assert forall|i: int| 0 <= i < r.len() implies !colon.has(#[trigger] r[i]) by {
            if i < 8 {
                assert(r[i] == "library/"@[i]);
            } else if i < 8 + first.len() {
                assert(r[i] == first[i - 8]);
            } else if i > 8 + first.len() {
                assert(r[i] == repo[i - 9 - first.len()]);
            }
        }
        law_cut_at_the_first(r, ':', tag, colon);
    }
}

/// The address for a token asks for the service and the scope of the challenge, and leaves out the
/// one that is empty.
pub proof fn law_token_is_asked_for(realm: Seq<char>, service: Seq<char>, scope: Seq<char>)
    ensures
        ({
            let url = token_url_of(ChallengeView { realm, service, scope });
            &&& service.len() > 0 && scope.len() > 0 ==> url == realm + "?"@ + "service="@ + service
                + "&"@ + "scope="@ + scope
            &&& service.len() > 0 && scope.len() == 0 ==> url == realm + "?"@ + "service="@ + service
                + "&"@
            &&& service.len() == 0 && scope.len() > 0 ==> url == realm + "?"@ + "scope="@ + scope
            &&& service.len() == 0 && scope.len() == 0 ==> url == realm + "?"@
        }),
{
}

/// The mirror that is set is the only one; where none is, the default ones are tried in order. An
/// image of one of several mirrors is pulled from each of them in turn, and any other from its own
/// registry alone.
pub proof fn law_mirrors_are_tried_in_order(
    image: ImageView,
    mirrors: Seq<Seq<char>>,
    set: Seq<char>,
    i: int,
)
    ensures
        mirrors_of(Some(set)) == seq![set],
        mirrors_of(None) == seq!["docker.m.daocloud.io"@, "docker.1ms.run"@],
        mirrors.len() > 1 && 0 <= i < mirrors.len() && image.registry == mirrors[i] ==> registries_for(
            image,
            mirrors,
        ) == mirrors,
        mirrors.len() <= 1 || !mirrors.contains(image.registry) ==> registries_for(image, mirrors)
            == seq![image.registry],
{
}

/// A request that came to no answer is worth another attempt, and so is an answer with a status that
/// may pass; any other answer is handed on. What failed at last is told with the status and the
/// address, or as it was reported.
pub proof fn law_what_is_tried_again(status: u16, shown: String, e: Error, url: Seq<char>)
    ensures
        worth_another(Attempt::Failed(e)),
        worth_another(Attempt::Answered { status, shown }) <==> status == 404 || (500 <= status
            && status <= 599),
        reason(Attempt::Answered { status, shown }, url) == ErrorView::Between(
            Conflict::HttpStatus,
            shown@,
            url,
        ),
        reason(Attempt::Failed(e), url) == e.deep_view(),
        success(status) <==> 200 <= status && status <= 299,
{
}

/// What could not be fetched is told with its status: a manifest with its address, a layer with its
/// digest.
pub proof fn law_fetch_errors_name_what_failed(url: &str, digest: &str, shown: Seq<char>)
    ensures
        fetch_error(Fetched::Manifest { url }, shown) == ErrorView::Between(
            Conflict::ManifestStatus,
            shown,
            url@,
        ),
        fetch_error(Fetched::ResolvedManifest, shown) == ErrorView::About(
            Complaint::ResolvedManifestStatus,
            shown,
        ),
        fetch_error(Fetched::Layer { digest }, shown) == ErrorView::Between(
            Conflict::LayerStatus,
            digest@,
            shown,
        ),
{
}

/// A value may also stand without quotation marks.
pub proof fn law_value_without_marks(value: Seq<char>)
    requires
        value.len() > 0,
        plain(value),
        !is_white(value.last()),
    ensures
        triple(challenge("Bearer realm="@ + value)) == Some(
            (value, Seq::<char>::empty(), Seq::<char>::empty()),
        ),
{
    let comma = Class::Only(',');
    let mark = Class::Only('"');
    let none = Seq::<char>::empty();
    let rest = "realm="@ + value;
    reveal_strlit("Bearer ");
    reveal_strlit("realm=");
    reveal_strlit("Bearer realm=");
    let header = "Bearer realm="@ + value;
    assert(header =~= "Bearer "@ + rest);
    assert(header.take(7) =~= "Bearer "@);
    assert(header.skip(7) =~= rest);
    assert forall|i: int| 0 <= i < rest.len() implies !comma.has(#[trigger] rest[i]) by {
        if i < 6 {
            assert(rest[i] == "realm="@[i]);
        } else {
            assert(rest[i] == value[i - 6]);
        }
    }
    lemma_one_piece(rest, comma);
    let nothing = Seq::<Seq<char>>::empty();
    assert(seq![rest].drop_last() =~= nothing);
    assert(seq![rest].last() == rest);
    assert(rest[0] == 'r' && rest.last() == value.last());
    law_bare_drops_white(none, rest, none);
    assert(none + rest + none =~= rest);
    assert(rest.take(6) =~= "realm="@);
    assert(rest.skip(6) =~= value);
    assert(value[0] != '"' && value[value.len() - 1] != '"');
    law_trimmed_start_is(value, mark, 0);
    law_trimmed_end_is(value, mark, value.len() as int);
    assert(value.skip(0) =~= value);
    assert(value.take(value.len() as int) =~= value);
    assert(read_parameters(nothing) == (ChallengeView { realm: none, service: none, scope: none }));
    assert(read_parameters(seq![rest]) == read_parameter(read_parameters(nothing), rest));
}

} // verus!
