//! Pulling an image: which requests are made, and in which order.
use crate::build::registry::{
    answered, blob_url, challenge, check_fetched, choose_manifest, chosen_digest, delay_before,
    follow_redirects, is_success, manifest_accept, manifest_url, platform_accept, redirected,
    registry_request, registry_request_retry, success, token_url_of, transient, Attempt, DescriptorView, Fetched,
    Manifest, ManifestLayer, Next, NextView, Reply, Retry, MAX_REQUEST_ATTEMPTS,
};
use crate::error::{Conflict, Error, ErrorView};
use crate::metadata::copy_text;
use vstd::prelude::*;

verus! {

/// What is being fetched.
pub enum Goal {
    /// The manifest of the image.
    Manifest,
    /// The manifest for the platform.
    Resolved,
    /// A layer, before those that follow it.
    Layer { digest: String, rest: Vec<String> },
}

/// The mathematical value of a `Goal`.
#[verifier::ext_equal]
pub enum GoalView {
    Manifest,
    Resolved,
    Layer { digest: Seq<char>, rest: Seq<Seq<char>> },
}

impl DeepView for Goal {
    type V = GoalView;

    open spec fn deep_view(&self) -> GoalView {
        match self {
            Goal::Manifest => GoalView::Manifest,
            Goal::Resolved => GoalView::Resolved,
            Goal::Layer { digest, rest } => GoalView::Layer {
                digest: digest@,
                rest: rest.deep_view(),
            },
        }
    }
}

/// What is waited for.
#[derive(Debug, Clone, Copy, PartialEq, Eq, Structural)]
pub enum Phase {
    /// The first answer.
    Asked,
    /// A token.
    Token,
    /// The answer to the request that was made again with the token.
    AskedAgain,
    /// The answer from where a redirection has led.
    Followed,
    /// The time for another attempt.
    Pause,
    /// The body of the answer.
    Body,
}

/// A pull in progress.
pub struct Pull {
    pub registry: String,
    pub repo: String,
    pub arch: String,
    pub token: Option<String>,
    pub goal: Goal,
    pub url: String,
    pub accept: String,
    /// The number of the attempt, counted from zero.
    pub attempt: u32,
    pub phase: Phase,
}

/// The mathematical value of a `Pull`.
#[verifier::ext_equal]
pub struct PullView {
    pub registry: Seq<char>,
    pub repo: Seq<char>,
    pub arch: Seq<char>,
    pub token: Option<Seq<char>>,
    pub goal: GoalView,
    pub url: Seq<char>,
    pub accept: Seq<char>,
    pub attempt: u32,
    pub phase: Phase,
}

impl DeepView for Pull {
    type V = PullView;

    open spec fn deep_view(&self) -> PullView {
        PullView {
            registry: self.registry@,
            repo: self.repo@,
            arch: self.arch@,
            token: self.token.deep_view(),
            goal: self.goal.deep_view(),
            url: self.url@,
            accept: self.accept@,
            attempt: self.attempt,
            phase: self.phase,
        }
    }
}

/// What happens.
pub enum Event {
    /// An answer, with its status as it is written.
    Replied { reply: Reply, shown: String },
    /// A token was handed out.
    Token(String),
    /// The pause is over.
    Waited,
    /// The body was read as a manifest.
    Manifest(Manifest),
    /// The body was saved and unpacked.
    Saved,
    /// What was waited for has failed.
    Failed(String),
}

/// The mathematical value of an `Event`.
pub enum EventView {
    Replied {
        status: u16,
        www_authenticate: Option<Seq<char>>,
        location: Option<Seq<char>>,
        shown: Seq<char>,
    },
    Token(Seq<char>),
    Waited,
    Manifest { layers: Seq<Seq<char>>, manifests: Seq<DescriptorView> },
    Saved,
    Failed(Seq<char>),
}

/// The digests of the layers.
pub open spec fn digests(layers: Seq<ManifestLayer>) -> Seq<Seq<char>> {
    Seq::new(layers.len(), |i: int| layers[i].digest@)
}

impl DeepView for Event {
    type V = EventView;

    open spec fn deep_view(&self) -> EventView {
        match self {
            Event::Replied { reply, shown } => EventView::Replied {
                status: reply.status,
                www_authenticate: reply.www_authenticate.deep_view(),
                location: reply.location.deep_view(),
                shown: shown@,
            },
            Event::Token(s) => EventView::Token(s@),
            Event::Waited => EventView::Waited,
            Event::Manifest(m) => EventView::Manifest {
                layers: digests(m.layers@),
                manifests: m.manifests.deep_view(),
            },
            Event::Saved => EventView::Saved,
            Event::Failed(s) => EventView::Failed(s@),
        }
    }
}

/// What to do next.
pub enum Action {
    /// Make a request, with the token where there is one.
    Send { url: String, accept: String, token: Option<String> },
    /// Fetch a token.
    FetchToken(String),
    /// Make a request without the token.
    Follow(String),
    /// Wait so many seconds.
    Wait(u64),
    /// Read the body as a manifest.
    ReadManifest,
    /// Save and unpack the body, which is the layer with this digest.
    SaveLayer(String),
}

/// The mathematical value of an `Action`.
pub enum ActionView {
    Send { url: Seq<char>, accept: Seq<char>, token: Option<Seq<char>> },
    FetchToken(Seq<char>),
    Follow(Seq<char>),
    Wait(nat),
    ReadManifest,
    SaveLayer(Seq<char>),
}

impl DeepView for Action {
    type V = ActionView;

    open spec fn deep_view(&self) -> ActionView {
        match self {
            Action::Send { url, accept, token } => ActionView::Send {
                url: url@,
                accept: accept@,
                token: token.deep_view(),
            },
            Action::FetchToken(s) => ActionView::FetchToken(s@),
            Action::Follow(s) => ActionView::Follow(s@),
            Action::Wait(n) => ActionView::Wait(*n as nat),
            Action::ReadManifest => ActionView::ReadManifest,
            Action::SaveLayer(s) => ActionView::SaveLayer(s@),
        }
    }
}

/// Where a pull stands: something is to be done, all is there, or it has failed.
pub enum PullStep {
    Do { pull: Pull, action: Action },
    Done,
    Fail(Error),
}

/// The mathematical value of a `PullStep`.
#[verifier::ext_equal]
pub enum StepView {
    Do { pull: PullView, action: ActionView },
    Done,
    Fail(ErrorView),
}

impl DeepView for PullStep {
    type V = StepView;

    open spec fn deep_view(&self) -> StepView {
        match self {
            PullStep::Do { pull, action } => StepView::Do {
                pull: pull.deep_view(),
                action: action.deep_view(),
            },
            PullStep::Done => StepView::Done,
            PullStep::Fail(e) => StepView::Fail(e.deep_view()),
        }
    }
}

/// The address of a manifest.
pub open spec fn manifest_at(registry: Seq<char>, repo: Seq<char>, reference: Seq<char>) -> Seq<char> {
    "https://"@ + registry + "/v2/"@ + repo + "/manifests/"@ + reference
}

/// The address of a layer.
pub open spec fn blob_at(registry: Seq<char>, repo: Seq<char>, digest: Seq<char>) -> Seq<char> {
    "https://"@ + registry + "/v2/"@ + repo + "/blobs/"@ + digest
}

/// The kinds of manifest that the first request accepts.
pub open spec fn any_manifest() -> Seq<char> {
    "application/vnd.docker.distribution.manifest.v2+json, application/vnd.docker.distribution.manifest.list.v2+json, application/vnd.oci.image.manifest.v1+json, application/vnd.oci.image.index.v1+json"@
}

/// The kinds of manifest that the request for one platform accepts.
pub open spec fn one_manifest() -> Seq<char> {
    "application/vnd.docker.distribution.manifest.v2+json, application/vnd.oci.image.manifest.v1+json"@
}

/// Makes the request of the pull.
pub open spec fn send(p: PullView) -> StepView {
    StepView::Do {
        pull: PullView { phase: Phase::Asked, ..p },
        action: ActionView::Send { url: p.url, accept: p.accept, token: p.token },
    }
}

/// Turns to a new goal.
pub open spec fn turn_to(p: PullView, goal: GoalView, url: Seq<char>, accept: Seq<char>) -> StepView {
    send(PullView { goal, url, accept, attempt: 0, ..p })
}

/// Turns to the first of the layers, or ends where there is none.
pub open spec fn next_layer(p: PullView, layers: Seq<Seq<char>>) -> StepView {
    if layers.len() == 0 {
        StepView::Done
    } else {
        turn_to(
            p,
            GoalView::Layer { digest: layers[0], rest: layers.drop_first() },
            blob_at(p.registry, p.repo, layers[0]),
            "*/*"@,
        )
    }
}

/// The start of pulling an image.
pub open spec fn pulling(
    registry: Seq<char>,
    repo: Seq<char>,
    tag: Seq<char>,
    arch: Seq<char>,
) -> StepView {
    send(
        PullView {
            registry,
            repo,
            arch,
            token: None,
            goal: GoalView::Manifest,
            url: manifest_at(registry, repo, tag),
            accept: any_manifest(),
            attempt: 0,
            phase: Phase::Asked,
        },
    )
}

/// An attempt has failed for a reason that may pass: another one after a pause, unless it was the
/// last.
pub open spec fn try_again(p: PullView, reason: ErrorView) -> StepView {
    if p.attempt + 1 < MAX_REQUEST_ATTEMPTS {
        let attempt = (p.attempt + 1) as u32;
        StepView::Do {
            pull: PullView { attempt, phase: Phase::Pause, ..p },
            action: ActionView::Wait(delay_before(attempt)),
        }
    } else {
        StepView::Fail(reason)
    }
}

/// Why what was fetched is not usable, with its status as it is written.
pub open spec fn unusable(p: PullView, shown: Seq<char>) -> ErrorView {
    match p.goal {
        GoalView::Manifest => ErrorView::Between(Conflict::ManifestStatus, shown, p.url),
        GoalView::Resolved => ErrorView::About(
            crate::error::Complaint::ResolvedManifestStatus,
            shown,
        ),
        GoalView::Layer { digest, .. } => ErrorView::Between(Conflict::LayerStatus, digest, shown),
    }
}

/// The final answer to an attempt has come.
pub open spec fn settled(p: PullView, status: u16, shown: Seq<char>) -> StepView {
    if success(status) {
        StepView::Do {
            pull: PullView { phase: Phase::Body, ..p },
            action: match p.goal {
                GoalView::Layer { digest, .. } => ActionView::SaveLayer(digest),
                _ => ActionView::ReadManifest,
            },
        }
    } else if transient(status) {
        try_again(p, ErrorView::Between(Conflict::HttpStatus, shown, p.url))
    } else {
        StepView::Fail(unusable(p, shown))
    }
}

/// What follows from an answer that may ask for a token or lead elsewhere.
pub open spec fn act_on(p: PullView, next: NextView, status: u16, shown: Seq<char>) -> StepView {
    match next {
        NextView::Accept => settled(p, status, shown),
        NextView::FetchToken(url) => StepView::Do {
            pull: PullView { phase: Phase::Token, ..p },
            action: ActionView::FetchToken(url),
        },
        NextView::Follow(to) => StepView::Do {
            pull: PullView { phase: Phase::Followed, ..p },
            action: ActionView::Follow(to),
        },
        NextView::Fail(e) => try_again(p, e),
    }
}

/// What follows from what happens.
pub open spec fn advanced(p: PullView, event: EventView) -> StepView {
    match event {
        EventView::Replied { status, www_authenticate, location, shown } => match p.phase {
            Phase::Asked => act_on(
                p,
                answered(p.url, status, www_authenticate, location),
                status,
                shown,
            ),
            Phase::AskedAgain => act_on(p, redirected(status, location), status, shown),
            _ => settled(p, status, shown),
        },
        EventView::Token(token) => StepView::Do {
            pull: PullView { token: Some(token), phase: Phase::AskedAgain, ..p },
            action: ActionView::Send { url: p.url, accept: p.accept, token: Some(token) },
        },
        EventView::Waited => send(p),
        EventView::Manifest { layers, manifests } => match p.goal {
            GoalView::Manifest => match chosen_digest(manifests, p.arch) {
                Some(digest) => turn_to(
                    p,
                    GoalView::Resolved,
                    manifest_at(p.registry, p.repo, digest),
                    one_manifest(),
                ),
                None => next_layer(p, layers),
            },
            _ => next_layer(p, layers),
        },
        EventView::Saved => match p.goal {
            GoalView::Layer { rest, .. } => next_layer(p, rest),
            _ => StepView::Done,
        },
        EventView::Failed(text) => if p.phase == Phase::Body {
            StepView::Fail(ErrorView::Outside(text))
        } else {
            try_again(p, ErrorView::Outside(text))
        },
    }
}

/// Whether what happens is what is waited for.
pub open spec fn expected(p: PullView, event: EventView) -> bool {
    match event {
        EventView::Replied { .. } => p.phase == Phase::Asked || p.phase == Phase::AskedAgain
            || p.phase == Phase::Followed,
        EventView::Token(_) => p.phase == Phase::Token,
        EventView::Waited => p.phase == Phase::Pause,
        EventView::Manifest { .. } => p.phase == Phase::Body && !(p.goal is Layer),
        EventView::Saved => p.phase == Phase::Body && p.goal is Layer,
        EventView::Failed(_) => p.phase != Phase::Pause,
    }
}

/// Makes the request of the pull.
fn make_request(pull: Pull) -> (r: PullStep)
    ensures
        r.deep_view() == send(pull.deep_view()),
{
    let action = Action::Send {
        url: pull.url.clone(),
        accept: pull.accept.clone(),
        token: copy_text(&pull.token),
    };
    PullStep::Do { pull: Pull { phase: Phase::Asked, ..pull }, action }
}

/// Turns to the first of the layers.
fn turn_to_layer(pull: Pull, layers: Vec<String>) -> (r: PullStep)
    ensures
        r.deep_view() == next_layer(pull.deep_view(), layers.deep_view()),
{
    if layers.len() == 0 {
        return PullStep::Done;
    }
    let mut rest = layers;
    let ghost before = rest@;
    let ghost all = rest.deep_view();
    let digest = rest.remove(0);
    proof {
        assert(all[0] == digest@);
        assert forall|j: int| 0 <= j < rest@.len() implies (#[trigger] rest@[j])@ == all.drop_first()[j] by {
            assert(rest@[j] == before[j + 1]);
        }
        assert(rest.deep_view() =~= all.drop_first());
    }
    let url = blob_url(pull.registry.as_str(), pull.repo.as_str(), digest.as_str());
    make_request(
        Pull {
            goal: Goal::Layer { digest, rest },
            url,
            accept: "*/*".to_owned(),
            attempt: 0,
            ..pull
        },
    )
}

/// The digests of the layers.
fn layer_digests(layers: &Vec<ManifestLayer>) -> (r: Vec<String>)
    ensures
        r.deep_view() == digests(layers@),
{
    let mut r: Vec<String> = Vec::new();
    let mut i: usize = 0;
    while i < layers.len()
        invariant
            i <= layers@.len(),
            r@.len() == i,
            forall|j: int| 0 <= j < i ==> (#[trigger] r@[j])@ == layers@[j].digest@,
        decreases layers@.len() - i,
    {
        r.push(layers[i].digest.clone());
        i = i + 1;
    }
    proof {
        assert(r.deep_view() =~= digests(layers@));
    }
    r
}

/// Starts pulling an image from a registry.
pub fn pull_image_from(registry: &str, repo: &str, tag: &str, arch: &str) -> (r: PullStep)
    ensures
        r.deep_view() == pulling(registry@, repo@, tag@, arch@),
{
    make_request(
        Pull {
            registry: registry.to_owned(),
            repo: repo.to_owned(),
            arch: arch.to_owned(),
            token: None,
            goal: Goal::Manifest,
            url: manifest_url(registry, repo, tag),
            accept: manifest_accept().to_owned(),
            attempt: 0,
            phase: Phase::Asked,
        },
    )
}

impl Pull {
    /// After an attempt that may succeed later.
    fn retry(self, result: Attempt) -> (r: PullStep)
        requires
            self.attempt < MAX_REQUEST_ATTEMPTS,
            crate::build::registry::worth_another(result),
        ensures
            r.deep_view() == try_again(
                self.deep_view(),
                crate::build::registry::reason(result, self.url@),
            ),
    {
        proof {
            vstd::arithmetic::power2::lemma2_to64();
        }
        let attempt: u32 = self.attempt;
        match registry_request_retry(self.url.as_str(), attempt, result) {
            Retry::Again { delay_secs } => PullStep::Do {
                pull: Pull { attempt: attempt + 1, phase: Phase::Pause, ..self },
                action: Action::Wait(delay_secs),
            },
            Retry::GiveUp(e) => PullStep::Fail(e),
            Retry::Accept => PullStep::Done,
        }
    }

    /// After the final answer to an attempt.
    fn settle(self, status: u16, shown: String) -> (r: PullStep)
        requires
            self.attempt < MAX_REQUEST_ATTEMPTS,
        ensures
            r.deep_view() == settled(self.deep_view(), status, shown@),
    {
        if is_success(status) {
            let action = match &self.goal {
                Goal::Layer { digest, .. } => Action::SaveLayer(digest.clone()),
                _ => Action::ReadManifest,
            };
            return PullStep::Do { pull: Pull { phase: Phase::Body, ..self }, action };
        }
        if status == 404 || (500 <= status && status <= 599) {
            return self.retry(Attempt::Answered { status, shown });
        }
        let checked = match &self.goal {
            Goal::Manifest => check_fetched(
                Fetched::Manifest { url: self.url.as_str() },
                status,
                shown.as_str(),
            ),
            Goal::Resolved => check_fetched(Fetched::ResolvedManifest, status, shown.as_str()),
            Goal::Layer { digest, .. } => check_fetched(
                Fetched::Layer { digest: digest.as_str() },
                status,
                shown.as_str(),
            ),
        };
        match checked {
            Ok(_) => PullStep::Done,
            Err(e) => PullStep::Fail(e),
        }
    }

    /// After an answer that may ask for a token or lead elsewhere.
    fn act(self, next: Next, status: u16, shown: String) -> (r: PullStep)
        requires
            self.attempt < MAX_REQUEST_ATTEMPTS,
        ensures
            r.deep_view() == act_on(self.deep_view(), next.deep_view(), status, shown@),
    {
        match next {
            Next::Accept => self.settle(status, shown),
            Next::FetchToken(url) => PullStep::Do {
                pull: Pull { phase: Phase::Token, ..self },
                action: Action::FetchToken(url),
            },
            Next::Follow(to) => PullStep::Do {
                pull: Pull { phase: Phase::Followed, ..self },
                action: Action::Follow(to),
            },
            Next::Fail(e) => self.retry(Attempt::Failed(e)),
        }
    }

    /// Goes on after what has happened.
    pub fn advance(self, event: Event) -> (r: PullStep)
        requires
            self.attempt < MAX_REQUEST_ATTEMPTS,
            expected(self.deep_view(), event.deep_view()),
        ensures
            r.deep_view() == advanced(self.deep_view(), event.deep_view()),
            r matches PullStep::Do { pull, .. } ==> pull.attempt < MAX_REQUEST_ATTEMPTS,
    {
        match event {
            Event::Replied { reply, shown } => {
                let status: u16 = reply.status;
                if self.phase == Phase::Asked {
                    let next = registry_request(self.url.as_str(), &reply);
                    self.act(next, status, shown)
                } else if self.phase == Phase::AskedAgain {
                    let next = follow_redirects(&reply);
                    self.act(next, status, shown)
                } else {
                    self.settle(status, shown)
                }
            },
            Event::Token(token) => {
                let action = Action::Send {
                    url: self.url.clone(),
                    accept: self.accept.clone(),
                    token: Some(token.clone()),
                };
                PullStep::Do {
                    pull: Pull { token: Some(token), phase: Phase::AskedAgain, ..self },
                    action,
                }
            },
            Event::Waited => make_request(self),
            Event::Manifest(m) => {
                let layers = layer_digests(&m.layers);
                if let Goal::Manifest = self.goal {
                    if let Some(digest) = choose_manifest(&m.manifests, self.arch.as_str()) {
                        let url = manifest_url(
                            self.registry.as_str(),
                            self.repo.as_str(),
                            digest.as_str(),
                        );
                        return make_request(
                            Pull {
                                goal: Goal::Resolved,
                                url,
                                accept: platform_accept().to_owned(),
                                attempt: 0,
                                ..self
                            },
                        );
                    }
                }
                turn_to_layer(self, layers)
            },
            Event::Saved => {
                let mut pull = self;
                let mut goal = Goal::Manifest;
                std::mem::swap(&mut pull.goal, &mut goal);
                match goal {
                    Goal::Layer { rest, .. } => turn_to_layer(pull, rest),
                    _ => PullStep::Done,
                }
            },
            Event::Failed(text) => {
                if self.phase == Phase::Body {
                    PullStep::Fail(Error::Outside(text))
                } else {
                    self.retry(Attempt::Failed(Error::Outside(text)))
                }
            },
        }
    }
}

/// Whatever happens, no request is made more than three times, and a token that was handed out is
/// kept for all requests that follow.
pub proof fn law_pull_is_bounded(p: PullView, event: EventView)
    requires
        p.attempt < MAX_REQUEST_ATTEMPTS,
    ensures
        advanced(p, event) matches StepView::Do { pull, action } ==> {
            &&& pull.attempt < MAX_REQUEST_ATTEMPTS
            &&& pull.attempt <= p.attempt + 1
            &&& event matches EventView::Token(t) ==> pull.token == Some(t)
            &&& !(event is Token) ==> pull.token == p.token
            &&& action matches ActionView::Send { token, .. } ==> token == pull.token
            &&& pull.registry == p.registry && pull.repo == p.repo && pull.arch == p.arch
        },
{
}

/// The layers are fetched in the order of the manifest, each once: after one is saved comes the
/// next, and the pull is done when none is left.
pub proof fn law_layers_in_order(p: PullView, layers: Seq<Seq<char>>)
    ensures
        layers.len() == 0 ==> next_layer(p, layers) is Done,
        layers.len() > 0 ==> (next_layer(p, layers) matches StepView::Do { pull, action } && {
            &&& pull.goal == (GoalView::Layer { digest: layers[0], rest: layers.drop_first() })
            &&& action == (ActionView::Send {
                url: blob_at(p.registry, p.repo, layers[0]),
                accept: "*/*"@,
                token: p.token,
            })
            &&& advanced(PullView { phase: Phase::Body, ..pull }, EventView::Saved) == next_layer(
                PullView { phase: Phase::Body, ..pull },
                layers.drop_first(),
            )
        }),
{
}

/// A manifest that names no manifests for platforms, and any manifest that was asked for because it
/// is the one for the platform, leads to the first of its layers: the next request is for the blob
/// of that layer, and the others stay to be fetched. Only where it has no layers is the pull done.
pub proof fn law_manifest_leads_to_its_layers(
    p: PullView,
    layers: Seq<Seq<char>>,
    manifests: Seq<DescriptorView>,
)
    requires
        p.goal is Resolved || (p.goal is Manifest && manifests.len() == 0),
    ensures
        ({
            let r = advanced(p, EventView::Manifest { layers, manifests });
            &&& layers.len() == 0 <==> r is Done
            &&& layers.len() > 0 ==> (r matches StepView::Do { pull, action } && {
                &&& pull.goal == (GoalView::Layer { digest: layers[0], rest: layers.drop_first() })
                &&& action == (ActionView::Send {
                    url: "https://"@ + p.registry + "/v2/"@ + p.repo + "/blobs/"@ + layers[0],
                    accept: "*/*"@,
                    token: p.token,
                })
            })
        }),
{
}

/// A manifest that names manifests for platforms leads to one of them: the first that is for Linux
/// on the architecture, or the first of all where none is. The next request is for that one.
pub proof fn law_platform_leads_to_its_manifest(
    p: PullView,
    layers: Seq<Seq<char>>,
    manifests: Seq<DescriptorView>,
    name: Seq<char>,
    i: int,
)
    requires
        p.goal is Manifest,
        name == if p.arch == "aarch64"@ {
            "arm64"@
        } else if p.arch == "x86_64"@ {
            "amd64"@
        } else {
            p.arch
        },
        0 <= i < manifests.len(),
        (manifests[i].platform == Some((name, "linux"@)) && forall|j: int|
            0 <= j < i ==> (#[trigger] manifests[j]).platform != Some((name, "linux"@))) || (i == 0
            && forall|j: int|
            0 <= j < manifests.len() ==> (#[trigger] manifests[j]).platform != Some(
                (name, "linux"@),
            )),
    ensures
        advanced(p, EventView::Manifest { layers, manifests }) matches StepView::Do {
            pull,
            action,
        } && pull.goal is Resolved && action == (ActionView::Send {
            url: "https://"@ + p.registry + "/v2/"@ + p.repo + "/manifests/"@ + manifests[i].digest,
            accept: "application/vnd.docker.distribution.manifest.v2+json, application/vnd.oci.image.manifest.v1+json"@,
            token: p.token,
        }),
{
    crate::build::registry::law_platform_is_chosen(manifests, p.arch, name, i);
}

/// The first answer to a request: a refusal with a challenge leads to the address of the challenge
/// for a token, a redirection leads on without the token, and any other answer is judged by its
/// status. A refusal without a challenge and a redirection to nowhere count as failed attempts.
pub proof fn law_first_answer_decides(
    p: PullView,
    status: u16,
    www_authenticate: Option<Seq<char>>,
    location: Option<Seq<char>>,
    shown: Seq<char>,
)
    requires
        p.attempt < 3,
        p.phase == Phase::Asked || p.phase == Phase::AskedAgain,
    ensures
        ({
            let r = advanced(
                p,
                EventView::Replied { status, www_authenticate, location, shown },
            );
            let refused = p.phase == Phase::Asked && status == 401;
            let moved = 300 <= status && status <= 399;
            &&& refused && (www_authenticate matches Some(h) && challenge(h) is Some) ==> r
                == (StepView::Do {
                pull: PullView { phase: Phase::Token, ..p },
                action: ActionView::FetchToken(token_url_of(challenge(www_authenticate->0)->0)),
            })
            &&& moved && location is Some ==> r == (StepView::Do {
                pull: PullView { phase: Phase::Followed, ..p },
                action: ActionView::Follow(location->0),
            })
            &&& (refused && !(www_authenticate matches Some(h) && challenge(h) is Some)) || (moved
                && location is None) ==> if p.attempt == 2 {
                r is Fail
            } else {
                r matches StepView::Do { pull, action } && action is Wait && pull == (PullView {
                    attempt: (p.attempt + 1) as u32,
                    phase: Phase::Pause,
                    ..p
                })
            }
            &&& !refused && !moved ==> r == advanced(
                PullView { phase: Phase::Followed, ..p },
                EventView::Replied { status, www_authenticate, location, shown },
            )
        }),
{
}

/// Where the pull stands after the events, one after the other.
pub open spec fn pulled(start: StepView, events: Seq<EventView>) -> StepView
    decreases events.len(),
{
    if events.len() == 0 {
        start
    } else {
        match pulled(start, events.drop_last()) {
            StepView::Do { pull, .. } => advanced(pull, events.last()),
            other => other,
        }
    }
}

/// Whether every one of the events is what the pull waits for when it comes.
pub open spec fn all_expected(start: StepView, events: Seq<EventView>) -> bool
    decreases events.len(),
{
    events.len() > 0 ==> {
        &&& all_expected(start, events.drop_last())
        &&& pulled(start, events.drop_last()) matches StepView::Do { pull, .. } && expected(
            pull,
            events.last(),
        )
    }
}

/// The digests of the layers that were saved, in order: those that were asked for, where it was told
/// that this was done.
pub open spec fn saved_layers(start: StepView, events: Seq<EventView>) -> Seq<Seq<char>>
    decreases events.len(),
{
    if events.len() == 0 {
        Seq::empty()
    } else {
        let before = saved_layers(start, events.drop_last());
        match (pulled(start, events.drop_last()), events.last()) {
            (
                StepView::Do { action: ActionView::SaveLayer(digest), .. },
                EventView::Saved,
            ) => before.push(digest),
            _ => before,
        }
    }
}

/// The layers of the last manifest that was read, if one was.
pub open spec fn last_manifest(events: Seq<EventView>) -> Option<Seq<Seq<char>>>
    decreases events.len(),
{
    if events.len() == 0 {
        None
    } else {
        match events.last() {
            EventView::Manifest { layers, .. } => Some(layers),
            _ => last_manifest(events.drop_last()),
        }
    }
}

/// What holds in the course of a pull: a layer is requested by its digest, and those saved, that one
/// and the rest make up the manifest that is used.
spec fn on_course(
    step: StepView,
    saved: Seq<Seq<char>>,
    used: Option<Seq<Seq<char>>>,
    registry: Seq<char>,
    repo: Seq<char>,
) -> bool {
    match step {
        StepView::Do { pull, action } => {
            &&& pull.registry == registry
            &&& pull.repo == repo
            &&& action is SaveLayer <==> pull.phase == Phase::Body && pull.goal is Layer
            &&& match pull.goal {
                GoalView::Layer { digest, rest } => {
                    &&& used == Some(saved + seq![digest] + rest)
                    &&& pull.url == "https://"@ + registry + "/v2/"@ + repo + "/blobs/"@ + digest
                    &&& action matches ActionView::SaveLayer(d) ==> d == digest
                },
                _ => saved.len() == 0,
            }
        },
        StepView::Done => used == Some(saved),
        StepView::Fail(_) => true,
    }
}

/// A pull stays on course.
proof fn lemma_on_course(
    registry: Seq<char>,
    repo: Seq<char>,
    tag: Seq<char>,
    arch: Seq<char>,
    events: Seq<EventView>,
)
    requires
        all_expected(pulling(registry, repo, tag, arch), events),
    ensures
        ({
            let start = pulling(registry, repo, tag, arch);
            on_course(
                pulled(start, events),
                saved_layers(start, events),
                last_manifest(events),
                registry,
                repo,
            )
        }),
    decreases events.len(),
{
    let start = pulling(registry, repo, tag, arch);
    if events.len() > 0 {
        let before = events.drop_last();
        lemma_on_course(registry, repo, tag, arch, before);
        let saved = saved_layers(start, before);
        if let StepView::Do { pull, .. } = pulled(start, before) {
            match events.last() {
                EventView::Manifest { layers, .. } => {
                    if layers.len() > 0 {
                        assert(layers =~= saved + seq![layers[0]] + layers.drop_first());
                    } else {
                        assert(layers =~= saved);
                    }
                },
                EventView::Saved => {
                    if let GoalView::Layer { digest, rest } = pull.goal {
                        let now = saved.push(digest);
                        if rest.len() > 0 {
                            assert(saved + seq![digest] + rest =~= now + seq![rest[0]]
                                + rest.drop_first());
                        } else {
                            assert(saved + seq![digest] + rest =~= now);
                        }
                    }
                },
                _ => {},
            }
        }
    }
}

/// However a pull went: it is done only after a manifest was read, and when it is done, the layers
/// that were saved are those of the manifest that was read last, each once and in its order. Until
/// then those that were saved are the first of them. A layer is saved only from the answer to the
/// request for its own blob.
pub proof fn law_done_when_every_layer_is_saved(
    registry: Seq<char>,
    repo: Seq<char>,
    tag: Seq<char>,
    arch: Seq<char>,
    events: Seq<EventView>,
)
    requires
        all_expected(pulling(registry, repo, tag, arch), events),
    ensures
        ({
            let start = pulling(registry, repo, tag, arch);
            let saved = saved_layers(start, events);
            &&& pulled(start, events) is Done ==> last_manifest(events) == Some(saved)
            &&& pulled(start, events) matches StepView::Do { pull, action } ==> {
                &&& pull.goal is Layer ==> (last_manifest(events) matches Some(layers)
                    && saved.len() < layers.len() && saved == layers.take(saved.len() as int))
                &&& action matches ActionView::SaveLayer(digest) ==> {
                    &&& last_manifest(events) matches Some(layers) && digest == layers[saved.len() as int]
                    &&& pull.url == "https://"@ + registry + "/v2/"@ + repo + "/blobs/"@ + digest
                }
            }
        }),
{
    lemma_on_course(registry, repo, tag, arch, events);
    let start = pulling(registry, repo, tag, arch);
    let saved = saved_layers(start, events);
    if let StepView::Do { pull, .. } = pulled(start, events) {
        if let GoalView::Layer { digest, rest } = pull.goal {
            let all = saved + seq![digest] + rest;
            assert(saved =~= all.take(saved.len() as int));
            assert(all[saved.len() as int] == digest);
        }
    }
}

/// The answer to a request is judged by its status alone once no token and no other address comes
/// into question: from 200 to 299 the body is taken, for what it was asked for; 404 and from 500 to
/// 599 the request is made again after two seconds and after four, and given up after the third
/// time; any other status ends the pull.
pub proof fn law_status_decides(p: PullView, event: EventView)
    requires
        p.attempt < 3,
        p.phase == Phase::Followed,
        event is Replied,
    ensures
        ({
            let status = event->status;
            let good = 200 <= status && status <= 299;
            let passing = status == 404 || (500 <= status && status <= 599);
            &&& good ==> (advanced(p, event) matches StepView::Do { pull, action } && pull == (PullView {
                phase: Phase::Body,
                ..p
            }) && action == match p.goal {
                GoalView::Layer { digest, .. } => ActionView::SaveLayer(digest),
                _ => ActionView::ReadManifest,
            })
            &&& passing && p.attempt < 2 ==> (advanced(p, event) matches StepView::Do { pull, action }
                && action == ActionView::Wait(
                if p.attempt == 0 {
                    2
                } else {
                    4
                },
            ) && pull == (PullView { attempt: (p.attempt + 1) as u32, phase: Phase::Pause, ..p }))
            &&& advanced(p, event) is Fail <==> !good && (!passing || p.attempt == 2)
        }),
{
    vstd::arithmetic::power2::lemma2_to64();
}

/// A request is made again, after a pause or with a token, just as it was made before: to the same
/// address and for the same kinds of answer, with the token that there is.
pub proof fn law_same_request_again(p: PullView, token: Seq<char>)
    ensures
        advanced(p, EventView::Waited) == (StepView::Do {
            pull: PullView { phase: Phase::Asked, ..p },
            action: ActionView::Send { url: p.url, accept: p.accept, token: p.token },
        }),
        advanced(p, EventView::Token(token)) == (StepView::Do {
            pull: PullView { token: Some(token), phase: Phase::AskedAgain, ..p },
            action: ActionView::Send { url: p.url, accept: p.accept, token: Some(token) },
        }),
{
}

/// A pull starts with the request for the manifest under the tag, without a token.
pub proof fn law_pull_starts_with_the_manifest(
    registry: Seq<char>,
    repo: Seq<char>,
    tag: Seq<char>,
    arch: Seq<char>,
)
    ensures
        pulling(registry, repo, tag, arch) matches StepView::Do { pull, action } && {
            &&& pull.registry == registry && pull.repo == repo && pull.arch == arch
            &&& pull.goal is Manifest && pull.attempt == 0 && pull.phase == Phase::Asked
            &&& action matches ActionView::Send { url, accept, token } && url == pull.url && accept
                == pull.accept && url == "https://"@ + registry + "/v2/"@ + repo + "/manifests/"@ + tag
                && token is None && accept
                == "application/vnd.docker.distribution.manifest.v2+json, application/vnd.docker.distribution.manifest.list.v2+json, application/vnd.oci.image.manifest.v1+json, application/vnd.oci.image.index.v1+json"@
        },
{
}

/// A manifest is seen with all its layers in their order, and with all its platforms.
pub proof fn law_manifest_is_seen_whole(m: Manifest, i: int)
    ensures
        Event::Manifest(m).deep_view() matches EventView::Manifest { layers, manifests } && {
            &&& layers.len() == m.layers@.len()
            &&& 0 <= i < m.layers@.len() ==> layers[i] == m.layers@[i].digest@
            &&& manifests.len() == m.manifests@.len()
            &&& 0 <= i < m.manifests@.len() ==> manifests[i].digest == m.manifests@[i].digest@ && (
            manifests[i].platform == match m.manifests@[i].platform {
                Some(p) => Some((p.architecture@, p.os@)),
                None => None,
            })
        },
{
}

/// A status that ends the pull is told as it is written, with the address of the manifest or the
/// digest of the layer; and so is one that did not pass after three times, with the address.
pub proof fn law_failure_is_told(p: PullView, status: u16, shown: Seq<char>, event: EventView)
    requires
        p.attempt < 3,
        p.phase == Phase::Followed,
        event == (EventView::Replied { status, www_authenticate: None, location: None, shown }),
    ensures
        advanced(p, event) matches StepView::Fail(e) ==> e == if status == 404 || (500 <= status
            && status <= 599) {
            ErrorView::Between(Conflict::HttpStatus, shown, p.url)
        } else {
            match p.goal {
                GoalView::Manifest => ErrorView::Between(Conflict::ManifestStatus, shown, p.url),
                GoalView::Resolved => ErrorView::About(
                    crate::error::Complaint::ResolvedManifestStatus,
                    shown,
                ),
                GoalView::Layer { digest, .. } => ErrorView::Between(
                    Conflict::LayerStatus,
                    digest,
                    shown,
                ),
            }
        },
{
}

/// A request that fails outright is made again like one with a passing status; a body that cannot be
/// read or saved ends the pull at once.
pub proof fn law_outright_failure(p: PullView, text: Seq<char>)
    requires
        p.attempt < 3,
    ensures
        p.phase == Phase::Body ==> advanced(p, EventView::Failed(text)) == StepView::Fail(
            ErrorView::Outside(text),
        ),
        p.phase != Phase::Body && p.attempt == 2 ==> advanced(p, EventView::Failed(text))
            == StepView::Fail(ErrorView::Outside(text)),
        p.phase != Phase::Body && p.attempt < 2 ==> advanced(p, EventView::Failed(text)) == (
        StepView::Do {
            pull: PullView { attempt: (p.attempt + 1) as u32, phase: Phase::Pause, ..p },
            action: ActionView::Wait(
                if p.attempt == 0 {
                    2
                } else {
                    4
                },
            ),
        }),
{
    vstd::arithmetic::power2::lemma2_to64();
}

} // verus!
