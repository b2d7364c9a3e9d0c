//! The plugin contract and the registry that dispatches by it.
//!
//! Plugins are asked in the order in which they were registered, and the
//! first that claims a request serves it. Two plugins may claim the same
//! request: the one registered first wins.

use crate::request::{Request, RequestView};
use crate::response::{Response, ResponseView};
use vstd::prelude::*;

verus! {

/// The error of a plugin that could not be set up; nothing is said of what
/// it holds.
#[verifier::external_type_specification]
#[verifier::external_body]
pub struct ExIoError(std::io::Error);

/// What bytes that may be missing hold.
pub open spec fn bytes_view(bytes: Option<Vec<u8>>) -> Option<Seq<u8>> {
    match bytes {
        Some(b) => Some(b@),
        None => None,
    }
}

/// What a text that may be missing holds.
pub open spec fn text_view(text: Option<String>) -> Option<Seq<char>> {
    match text {
        Some(t) => Some(t@),
        None => None,
    }
}

/// A handler that may claim requests and serve them.
///
/// `init` is called once, before the plugin is registered; `set_up` says
/// what it may do. After that `catch`, `source` and `serve` are called
/// through shared references, from any number of tasks at a time: they are
/// functions of the plugin and of what they are handed, which `claims`,
/// `wanted` and `response` name.
pub trait Plugin: Send + Sync + 'static {
    /// Whether the plugin claims `request`.
    spec fn claims(&self, request: RequestView) -> bool;

    /// The file that the plugin wants read before it serves `request`: its
    /// path below the root of the application, or `None` where it needs none.
    spec fn wanted(&self, request: RequestView) -> Option<Seq<char>>;

    /// The response of the plugin to `request`, given the bytes of the file
    /// that it wanted: `None` where it wanted none, or where the file could
    /// not be read.
    spec fn response(&self, request: RequestView, content: Option<Seq<u8>>) -> ResponseView;

    /// What `init` may make of the plugin: whether a call of `init` on this
    /// plugin may leave the plugin `after` and return `started`. A plugin
    /// whose setting up depends on the world outside admits every outcome
    /// that the world may bring.
    spec fn set_up(&self, after: &Self, started: Result<(), std::io::Error>) -> bool;

    /// Sets the plugin up. A plugin that fails here is not registered.
    fn init(&mut self) -> (started: Result<(), std::io::Error>)
        ensures
            old(self).set_up(final(self), started),
    ;

    /// Tells whether the plugin claims `request`.
    fn catch(&self, request: &Request) -> (claimed: bool)
        ensures
            claimed == self.claims(request@),
    ;

    /// Names the file to read before `serve` is called.
    fn source(&self, request: &Request) -> (path: Option<String>)
        ensures
            text_view(path) == self.wanted(request@),
    ;

    /// Builds the response to `request`, given the bytes of the file that
    /// `source` named.
    fn serve(&self, request: &Request, content: Option<Vec<u8>>) -> (response: Response)
        ensures
            response@ == self.response(request@, bytes_view(content)),
    ;
}

/// The first place at or after `i` whose plugin claims `request`, or the
/// length of `plugins` where none does.
pub open spec fn first_claim<P: Plugin>(plugins: Seq<P>, request: RequestView, i: int) -> int
    decreases plugins.len() - i,
{
    if 0 <= i < plugins.len() && !plugins[i].claims(request) {
        first_claim(plugins, request, i + 1)
    } else {
        i
    }
}

/// What `first_claim` returns, said without recursion.
pub proof fn lemma_first_claim<P: Plugin>(plugins: Seq<P>, request: RequestView, i: int)
    requires
        0 <= i <= plugins.len(),
    ensures
        i <= first_claim(plugins, request, i) <= plugins.len(),
        forall|k: int|
            i <= k < first_claim(plugins, request, i) ==> !(#[trigger] plugins[k]).claims(request),
        first_claim(plugins, request, i) < plugins.len() ==> plugins[first_claim(
            plugins,
            request,
            i,
        )].claims(request),
    decreases plugins.len() - i,
{
    if i < plugins.len() && !plugins[i].claims(request) {
        lemma_first_claim(plugins, request, i + 1);
    }
}

/// Of two registered plugins that both claim a request, the one registered
/// later is never the one that is found.
pub proof fn lemma_first_registered_wins<P: Plugin>(
    plugins: Seq<P>,
    request: RequestView,
    earlier: int,
    later: int,
)
    requires
        0 <= earlier < later < plugins.len(),
        plugins[earlier].claims(request),
        plugins[later].claims(request),
    ensures
        first_claim(plugins, request, 0) <= earlier,
        first_claim(plugins, request, 0) != later,
{
    lemma_first_claim(plugins, request, 0);
}

/// Registering one more plugin changes nothing for the requests that an
/// earlier plugin claims.
pub proof fn lemma_registration_keeps_priority<P: Plugin>(
    plugins: Seq<P>,
    added: P,
    request: RequestView,
)
    ensures
        first_claim(plugins, request, 0) < plugins.len() ==> first_claim(
            plugins.push(added),
            request,
            0,
        ) == first_claim(plugins, request, 0),
{
    lemma_first_claim(plugins, request, 0);
    lemma_first_claim(plugins.push(added), request, 0);
    let before = first_claim(plugins, request, 0);
    let after = first_claim(plugins.push(added), request, 0);
    if before < plugins.len() {
        assert(plugins.push(added)[before] == plugins[before]);
        if after < before {
            assert(plugins.push(added)[after] == plugins[after]);
        }
    }
}

/// The registry: the plugins in the order in which they were registered.
/// Plugins are added at the end and never removed.
pub struct PluginManager<P: Plugin> {
    plugins: Vec<P>,
}

impl<P: Plugin> PluginManager<P> {
    /// The registered plugins, first registered first.
    pub closed spec fn plugins(&self) -> Seq<P> {
        self.plugins@
    }

    /// A registry without plugins.
    pub fn new() -> (manager: Self)
        ensures
            manager.plugins() == Seq::<P>::empty(),
    {
        PluginManager { plugins: Vec::new() }
    }

    /// The number of registered plugins.
    pub fn len(&self) -> (n: usize)
        ensures
            n == self.plugins().len(),
    {
        self.plugins.len()
    }

    /// Sets `plugin` up and registers it behind the plugins that are there.
    /// Where `init` fails, its error is returned and nothing is registered.
    ///
    /// The result is the one that `init` gave. Where it is `Ok`, the plugin
    /// as `init` left it stands behind the plugins that were there, which
    /// keep their places.
    pub fn apply_plugin(&mut self, plugin: P) -> (applied: Result<(), std::io::Error>)
        ensures
            match applied {
                Ok(_) => {
                    &&& final(self).plugins().len() == old(self).plugins().len() + 1
                    &&& final(self).plugins().drop_last() == old(self).plugins()
                    &&& plugin.set_up(&final(self).plugins().last(), applied)
                },
                Err(_) => {
                    &&& final(self).plugins() == old(self).plugins()
                    &&& exists|left: P| #[trigger] plugin.set_up(&left, applied)
                },
            },
    {
        let mut ready = plugin;
        let started = ready.init();
        assert(plugin.set_up(&ready, started));
        self.enroll(ready, started)
    }

    /// Registers `plugin` where `started`, the result of its `init`, is
    /// `Ok`, and hands `started` back.
    pub fn enroll(&mut self, plugin: P, started: Result<(), std::io::Error>) -> (enrolled: Result<
        (),
        std::io::Error,
    >)
        ensures
            enrolled == started,
            started is Ok ==> final(self).plugins() == old(self).plugins().push(plugin),
            started is Err ==> final(self).plugins() == old(self).plugins(),
    {
        if started.is_ok() {
            self.plugins.push(plugin);
            assert(self.plugins@.drop_last() =~= old(self).plugins@);
        }
        started
    }

    /// The plugin that serves `request`: the first registered one that
    /// claims it, or `None` where no plugin does.
    pub fn find_plugin(&self, request: &Request) -> (found: Option<&P>)
        ensures
            match found {
                Some(plugin) => first_claim(self.plugins(), request@, 0) < self.plugins().len()
                    && *plugin == self.plugins()[first_claim(self.plugins(), request@, 0)]
                    && plugin.claims(request@),
                None => first_claim(self.plugins(), request@, 0) == self.plugins().len(),
            },
    {
        let mut i: usize = 0;
        while i < self.plugins.len()
            invariant
                i <= self.plugins.len(),
                first_claim(self.plugins@, request@, 0) == first_claim(
                    self.plugins@,
                    request@,
                    i as int,
                ),
            decreases self.plugins.len() - i,
        {
            if self.plugins[i].catch(request) {
                return Some(&self.plugins[i]);
            }
            i += 1;
        }
        None
    }
}

} // verus!
