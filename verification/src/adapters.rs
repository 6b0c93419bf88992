//! How each contender is started, attached to, asked and stopped, in a private directory.

use vstd::prelude::*;
use crate::config;
use crate::config::ContenderConfig;
use crate::decimal;
use crate::paths;
use crate::process;
use crate::process::{ProcessInfo, ProcessSnapshot};
use crate::sums;
use crate::text;
use crate::textmap;
use crate::textmap::TextMap;

verus! {

broadcast use vstd::std_specs::btree::group_btree_axioms;

// ---------------------------------------------------------------------------------------------
// Private directories
// ---------------------------------------------------------------------------------------------

/// The private directories of one session.
#[derive(Debug)]
pub struct IsolatedWorkdir {
    pub root: String,
    pub home: String,
    pub runtime: String,
    pub state: String,
    pub config: String,
}

/// What is kept of a label: its first eight ASCII letters and digits.
pub open spec fn short_label(label: Seq<char>) -> Seq<char> {
    let kept = label.filter(|c: char| text::alphanumeric(c));
    if kept.len() > 8 {
        kept.take(8)
    } else {
        kept
    }
}

/// The name of a private directory.
pub open spec fn workdir_named(label: Seq<char>, pid: u32, nonce: u64) -> Seq<char> {
    "utc-"@ + short_label(label) + "-"@ + decimal::decimal(pid as nat) + "-"@ + text::pad_left(
        decimal::hexadecimal(nonce as nat % 0x1_0000_0000),
        8,
        '0',
    )
}

fn shortened(label: &str) -> (r: String)
    ensures
        r@ == short_label(label@),
{
    let chars: Vec<char> = text::chars_of(label);
    let ghost p = |c: char| text::alphanumeric(c);
    let mut out: Vec<char> = Vec::new();
    let mut i: usize = 0;
    proof {
        reveal(Seq::filter);
    }
    assert(chars@.take(0).filter(p) =~= Seq::empty());
    assert(out@ =~= Seq::empty());
    while i < chars.len()
        invariant
            i <= chars@.len(),
            chars@ == label@,
            p == (|c: char| text::alphanumeric(c)),
            out@ == chars@.take(i as int).filter(p),
        decreases chars@.len() - i,
    {
        proof {
            reveal(Seq::filter);
            assert(chars@.take(i + 1).drop_last() =~= chars@.take(i as int));
            assert(chars@.take(i + 1).last() == chars@[i as int]);
        }
        if text::is_alphanumeric(chars[i]) {
            out.push(chars[i]);
        }
        i = i + 1;
    }
    assert(chars@.take(i as int) =~= label@);
    if out.len() > 8 {
        assert(out@.subrange(0, 8) =~= out@.take(8));
        text::text_range(&out, 0, 8)
    } else {
        text::text_of(&out)
    }
}

/// A name for a private directory: a safe label, the process and a number that is used once.
pub fn workdir_name(label: &str, pid: u32, nonce: u64) -> (r: String)
    ensures
        r@ == workdir_named(label@, pid, nonce),
{
    let head: String = text::cat(
        text::cat("utc-".to_owned(), shortened(label).as_str()),
        "-",
    );
    let middle: String = text::cat(
        text::cat(head, decimal::decimal_text(pid as u64).as_str()),
        "-",
    );
    text::cat(middle, decimal::hex_padded(nonce % 0x1_0000_0000, 8).as_str())
}

/// The environment that keeps a product inside its private directories.
pub open spec fn private_environment(w: IsolatedWorkdir) -> Seq<(Seq<char>, Seq<char>)> {
    seq![
        ("COLORTERM"@, "truecolor"@),
        ("HOME"@, w.home@),
        ("LC_ALL"@, "C"@),
        ("NO_COLOR"@, "1"@),
        ("SHELL"@, "/bin/sh"@),
        ("TERM"@, "xterm-256color"@),
        ("XDG_CACHE_HOME"@, paths::joined(w.root@, "cache"@)),
        ("XDG_CONFIG_HOME"@, w.config@),
        ("XDG_RUNTIME_DIR"@, w.runtime@),
        ("XDG_STATE_HOME"@, w.state@),
    ]
}

impl IsolatedWorkdir {
    /// The private directories below a root.
    pub fn under(root: &str) -> (r: IsolatedWorkdir)
        ensures
            r.root@ == root@,
            r.home@ == paths::joined(root@, "home"@),
            r.runtime@ == paths::joined(root@, "runtime"@),
            r.state@ == paths::joined(root@, "state"@),
            r.config@ == paths::joined(root@, "config"@),
    {
        IsolatedWorkdir {
            root: root.to_owned(),
            home: paths::join(root, "home"),
            runtime: paths::join(root, "runtime"),
            state: paths::join(root, "state"),
            config: paths::join(root, "config"),
        }
    }

    /// The environment that keeps a product inside its private directories.
    pub fn environment(&self) -> (r: TextMap)
        ensures
            r@ == private_environment(*self),
            textmap::ascending(r@),
    {
        proof {
            reveal_strlit("COLORTERM");
            reveal_strlit("HOME");
            reveal_strlit("LC_ALL");
            reveal_strlit("NO_COLOR");
            reveal_strlit("SHELL");
            reveal_strlit("TERM");
            reveal_strlit("XDG_CACHE_HOME");
            reveal_strlit("XDG_CONFIG_HOME");
            reveal_strlit("XDG_RUNTIME_DIR");
            reveal_strlit("XDG_STATE_HOME");
            text::lemma_before_at("COLORTERM"@, "HOME"@, 0);
            text::lemma_before_at("HOME"@, "LC_ALL"@, 0);
            text::lemma_before_at("LC_ALL"@, "NO_COLOR"@, 0);
            text::lemma_before_at("NO_COLOR"@, "SHELL"@, 0);
            text::lemma_before_at("SHELL"@, "TERM"@, 0);
            text::lemma_before_at("TERM"@, "XDG_CACHE_HOME"@, 0);
            text::lemma_before_at("XDG_CACHE_HOME"@, "XDG_CONFIG_HOME"@, 5);
            text::lemma_before_at("XDG_CONFIG_HOME"@, "XDG_RUNTIME_DIR"@, 4);
            text::lemma_before_at("XDG_RUNTIME_DIR"@, "XDG_STATE_HOME"@, 4);
        }
        let mut out: TextMap = TextMap::new();
        out.append("COLORTERM", "truecolor");
        out.append("HOME", self.home.as_str());
        out.append("LC_ALL", "C");
        out.append("NO_COLOR", "1");
        out.append("SHELL", "/bin/sh");
        out.append("TERM", "xterm-256color");
        out.append("XDG_CACHE_HOME", paths::join(self.root.as_str(), "cache").as_str());
        out.append("XDG_CONFIG_HOME", self.config.as_str());
        out.append("XDG_RUNTIME_DIR", self.runtime.as_str());
        out.append("XDG_STATE_HOME", self.state.as_str());
        assert(out@ =~= private_environment(*self));
        let _rising: usize = out.len();
        out
    }
}

// ---------------------------------------------------------------------------------------------
// Commands
// ---------------------------------------------------------------------------------------------

/// A contender and the terminal geometry that every attached client and headless render surface
/// must use.
#[derive(Debug)]
pub struct AppAdapter {
    pub config: ContenderConfig,
    pub cols: u16,
    pub rows: u16,
}

/// What a product is asked to do with a session.
#[derive(Debug, Clone, Copy, PartialEq, Eq, Structural)]
pub enum Request {
    /// Start a server without a client.
    Start,
    /// List the panes through the product's socket. All products fail when their server cannot
    /// be reached, so this is both the readiness probe and the control-latency command.
    Panes,
    /// Attach a client.
    Attach,
    /// Stop the server.
    Stop,
}

/// A command to run: nothing but `environment` is passed on to it.
#[derive(Debug)]
pub struct CommandPlan {
    pub program: String,
    pub directory: String,
    pub environment: TextMap,
    pub args: Vec<String>,
}

/// What a contender is asked, by the name of its adapter.
pub open spec fn request_args(
    adapter: Seq<char>,
    request: Request,
    session: Seq<char>,
    cols: u16,
    rows: u16,
) -> Seq<Seq<char>> {
    if adapter == "uniterm"@ {
        match request {
            Request::Start => seq!["workspace"@, "new"@, "-d"@, session],
            Request::Panes => seq!["pane"@, "list"@, "-w"@, session],
            Request::Attach => seq!["workspace"@, "switch"@, session],
            Request::Stop => seq!["workspace"@, "stop"@, session],
        }
    } else if adapter == "herdr"@ {
        match request {
            Request::Start => seq!["server"@],
            Request::Panes => seq!["pane"@, "list"@],
            Request::Attach => seq!["--session"@, session],
            Request::Stop => seq!["server"@, "stop"@],
        }
    } else {
        match request {
            Request::Start => seq![
                "new-session"@,
                "-d"@,
                "-s"@,
                session,
                "-x"@,
                decimal::decimal(cols as nat),
                "-y"@,
                decimal::decimal(rows as nat),
                "-P"@,
                "-F"@,
                "#{pid}"@,
            ],
            Request::Panes => seq!["list-panes"@, "-t"@, session],
            Request::Attach => seq!["attach-session"@, "-t"@, session],
            Request::Stop => seq!["kill-server"@],
        }
    }
}

/// What comes before every request: tmux is bound to a private socket and configuration.
pub open spec fn base_args(adapter: Seq<char>, w: IsolatedWorkdir) -> Seq<Seq<char>> {
    if adapter == "tmux"@ {
        seq![
            "-S"@,
            paths::joined(w.runtime@, "tmux.sock"@),
            "-f"@,
            paths::joined(w.config@, "tmux-benchmark.conf"@),
        ]
    } else {
        Seq::empty()
    }
}

/// The value of a variable in the environment of a command. The contender's own variables take
/// precedence over those of the private directories, and the search path comes from outside.
pub open spec fn variable(
    adapter: Seq<char>,
    own: Seq<(Seq<char>, Seq<char>)>,
    w: IsolatedWorkdir,
    path: Option<Seq<char>>,
    session: Option<Seq<char>>,
    key: Seq<char>,
) -> Option<Seq<char>> {
    if adapter == "herdr"@ && session is Some && key == "HERDR_SESSION"@ {
        session
    } else if adapter == "herdr"@ && key == "HERDR_CONFIG_PATH"@ {
        Some(paths::joined(w.config@, "herdr-benchmark.toml"@))
    } else if textmap::value_of(own, key) is Some {
        textmap::value_of(own, key)
    } else if textmap::value_of(private_environment(w), key) is Some {
        textmap::value_of(private_environment(w), key)
    } else if key == "PATH"@ {
        path
    } else {
        None
    }
}

impl CommandPlan {
    /// Whether this is the command that asks a contender for something in its private directories.
    pub open spec fn asks(
        self,
        adapter: AppAdapter,
        w: IsolatedWorkdir,
        path: Option<Seq<char>>,
        session: Option<Seq<char>>,
        args: Seq<Seq<char>>,
    ) -> bool {
        &&& self.program@ == adapter.config@.binary
        &&& self.directory@ == w.root@
        &&& textmap::ascending(self.environment@)
        &&& forall|key: Seq<char>| #[trigger]
            textmap::value_of(self.environment@, key) == variable(
                adapter.config@.adapter,
                adapter.config@.environment,
                w,
                path,
                session,
                key,
            )
        &&& text::texts(self.args@) == base_args(adapter.config@.adapter, w) + args
    }
}

/// Puts all values of one list over those of another.
fn overlay(over: &mut TextMap, with: &TextMap)
    requires
        textmap::ascending(with@),
    ensures
        textmap::ascending(final(over)@),
        forall|k: Seq<char>| #[trigger]
            textmap::value_of(final(over)@, k) == (if textmap::value_of(with@, k) is Some {
                textmap::value_of(with@, k)
            } else {
                textmap::value_of(old(over)@, k)
            }),
{
    let ghost before = over@;
    let ghost all = with@;
    let n: usize = with.len();
    let _rising: usize = over.len();
    let mut i: usize = 0;
    proof {
        assert forall|k: Seq<char>| !textmap::named(#[trigger] all.take(0), k) by {}
    }
    while i < n
        invariant
            i <= n,
            n == with@.len(),
            all == with@,
            textmap::ascending(all),
            textmap::ascending(over@),
            forall|k: Seq<char>| #[trigger]
                textmap::value_of(over@, k) == (if textmap::named(all.take(i as int), k) {
                    textmap::value_of(all, k)
                } else {
                    textmap::value_of(before, k)
                }),
        decreases n - i,
    {
        over.insert(with.key(i), with.value(i));
        proof {
            textmap::lemma_value_at(all, i as int);
            let now = all.take(i + 1);
            let earlier = all.take(i as int);
            assert forall|k: Seq<char>| #[trigger]
                textmap::value_of(over@, k) == (if textmap::named(now, k) {
                    textmap::value_of(all, k)
                } else {
                    textmap::value_of(before, k)
                }) by {
                if textmap::named(earlier, k) {
                    let j = choose|j: int| 0 <= j < earlier.len() && (#[trigger] earlier[j]).0 == k;
                    assert(now[j].0 == k);
                }
                if textmap::named(now, k) {
                    let j = choose|j: int| 0 <= j < now.len() && (#[trigger] now[j]).0 == k;
                    if j < i {
                        assert(earlier[j].0 == k);
                    }
                }
                assert(now[i as int].0 == all[i as int].0);
            }
        }
        i = i + 1;
    }
    assert(all.take(n as int) =~= all);
}

fn list_of(items: &[&str]) -> (r: Vec<String>)
    ensures
        text::texts(r@) == items@.map_values(|s: &str| s@),
{
    let ghost view = items@.map_values(|s: &str| s@);
    let mut out: Vec<String> = Vec::new();
    let mut i: usize = 0;
    assert(text::texts(out@) =~= view.take(0));
    while i < items.len()
        invariant
            i <= items@.len(),
            view == items@.map_values(|s: &str| s@),
            text::texts(out@) =~= view.take(i as int),
        decreases items@.len() - i,
    {
        text::push_str(&mut out, items[i]);
        i = i + 1;
    }
    assert(view.take(i as int) =~= view);
    out
}

impl AppAdapter {
    pub fn new(config: ContenderConfig, cols: u16, rows: u16) -> (r: AppAdapter)
        ensures
            r == (AppAdapter { config, cols, rows }),
    {
        AppAdapter { config, cols, rows }
    }

    fn is(&self, adapter: &str) -> (r: bool)
        ensures
            r == (self.config@.adapter == adapter@),
    {
        text::same(self.config.adapter.as_str(), adapter)
    }

    fn base(&self, w: &IsolatedWorkdir, path: &Option<String>, session: Option<&str>) -> (r:
        CommandPlan)
        ensures
            r.asks(
                *self,
                *w,
                text::opt_text(*path),
                match session {
                    Some(name) => Some(name@),
                    None => None,
                },
                Seq::empty(),
            ),
    {
        let mut environment: TextMap = TextMap::new();
        proof {
            assert forall|k: Seq<char>| textmap::value_of(#[trigger] environment@, k) is None by {
                assert(!textmap::named(environment@, k));
            }
        }
        if let Some(found) = path {
            environment.insert("PATH", found.as_str());
        }
        let private: TextMap = w.environment();
        overlay(&mut environment, &private);
        let _rising: usize = self.config.environment.len();
        overlay(&mut environment, &self.config.environment);
        if self.is("herdr") {
            let file: String = paths::join(w.config.as_str(), "herdr-benchmark.toml");
            environment.insert("HERDR_CONFIG_PATH", file.as_str());
            if let Some(name) = session {
                environment.insert("HERDR_SESSION", name);
            }
        }
        proof {
            reveal_strlit("HERDR_SESSION");
            reveal_strlit("HERDR_CONFIG_PATH");
            assert("HERDR_SESSION"@.len() != "HERDR_CONFIG_PATH"@.len());
        }
        let mut args: Vec<String> = Vec::new();
        if self.is("tmux") {
            let socket: String = paths::join(w.runtime.as_str(), "tmux.sock");
            let file: String = paths::join(w.config.as_str(), "tmux-benchmark.conf");
            text::push_str(&mut args, "-S");
            text::push_text(&mut args, socket);
            text::push_str(&mut args, "-f");
            text::push_text(&mut args, file);
        }
        assert(text::texts(args@) =~= base_args(self.config@.adapter, *w) + Seq::empty());
        CommandPlan {
            program: self.config.binary.clone(),
            directory: w.root.clone(),
            environment,
            args,
        }
    }

    /// The product with nothing asked of it yet.
    pub fn command(&self, workdir: &IsolatedWorkdir, path: &Option<String>) -> (r: CommandPlan)
        ensures
            r.asks(*self, *workdir, text::opt_text(*path), None, Seq::empty()),
    {
        self.base(workdir, path, None)
    }

    fn arguments(&self, request: Request, session: &str) -> (r: Vec<String>)
        requires
            config::supported(self.config@.adapter),
        ensures
            text::texts(r@) == request_args(
                self.config@.adapter,
                request,
                session@,
                self.cols,
                self.rows,
            ),
    {
        proof {
            reveal_strlit("uniterm");
            reveal_strlit("herdr");
            reveal_strlit("tmux");
        }
        let ghost wanted = request_args(
            self.config@.adapter,
            request,
            session@,
            self.cols,
            self.rows,
        );
        let out: Vec<String> = if self.is("uniterm") {
            match request {
                Request::Start => list_of(&["workspace", "new", "-d", session]),
                Request::Panes => list_of(&["pane", "list", "-w", session]),
                Request::Attach => list_of(&["workspace", "switch", session]),
                Request::Stop => list_of(&["workspace", "stop", session]),
            }
        } else if self.is("herdr") {
            match request {
                Request::Start => list_of(&["server"]),
                Request::Panes => list_of(&["pane", "list"]),
                Request::Attach => list_of(&["--session", session]),
                Request::Stop => list_of(&["server", "stop"]),
            }
        } else {
            match request {
                Request::Start => {
                    let cols: String = decimal::decimal_text(self.cols as u64);
                    let rows: String = decimal::decimal_text(self.rows as u64);
                    list_of(
                        &[
                            "new-session",
                            "-d",
                            "-s",
                            session,
                            "-x",
                            cols.as_str(),
                            "-y",
                            rows.as_str(),
                            "-P",
                            "-F",
                            "#{pid}",
                        ],
                    )
                },
                Request::Panes => list_of(&["list-panes", "-t", session]),
                Request::Attach => list_of(&["attach-session", "-t", session]),
                Request::Stop => list_of(&["kill-server"]),
            }
        };
        assert(text::texts(out@) =~= wanted);
        out
    }

    /// The command that asks the product for something about a session.
    pub fn request(
        &self,
        workdir: &IsolatedWorkdir,
        path: &Option<String>,
        session_name: &str,
        request: Request,
    ) -> (r: CommandPlan)
        requires
            config::supported(self.config@.adapter),
        ensures
            r.asks(
                *self,
                *workdir,
                text::opt_text(*path),
                Some(session_name@),
                request_args(
                    self.config@.adapter,
                    request,
                    session_name@,
                    self.cols,
                    self.rows,
                ),
            ),
    {
        let mut plan: CommandPlan = self.base(workdir, path, Some(session_name));
        let more: Vec<String> = self.arguments(request, session_name);
        let ghost base = text::texts(plan.args@);
        let ghost added = text::texts(more@);
        text::push_all(&mut plan.args, more);
        assert(text::texts(plan.args@) =~= base_args(self.config@.adapter, *workdir) + added);
        plan
    }

    /// Lists the session's panes through the product socket.
    pub fn pane_list_command(
        &self,
        workdir: &IsolatedWorkdir,
        path: &Option<String>,
        session_name: &str,
    ) -> (r: CommandPlan)
        requires
            config::supported(self.config@.adapter),
        ensures
            r.asks(
                *self,
                *workdir,
                text::opt_text(*path),
                Some(session_name@),
                request_args(
                    self.config@.adapter,
                    Request::Panes,
                    session_name@,
                    self.cols,
                    self.rows,
                ),
            ),
    {
        self.request(workdir, path, session_name, Request::Panes)
    }

    /// The name of a session.
    pub fn session_name(&self, sequence: usize) -> (r: String)
        ensures
            r@ == "utc-"@ + self.config@.id + "-"@ + decimal::decimal(sequence as nat),
    {
        let head: String = text::cat("utc-".to_owned(), self.config.id.as_str());
        text::cat(text::cat(head, "-"), decimal::decimal_text(sequence as u64).as_str())
    }

    /// Files the harness writes into the isolated tree; they are not product state.
    pub fn harness_files(&self, workdir: &IsolatedWorkdir) -> (r: Vec<String>)
        ensures
            text::texts(r@) == harness_paths(self.config@.adapter, *workdir),
    {
        proof {
            reveal_strlit("herdr");
            reveal_strlit("tmux");
        }
        let mut out: Vec<String> = Vec::new();
        if self.is("herdr") {
            text::push_text(&mut out, paths::join(workdir.config.as_str(), "herdr-benchmark.toml"));
        } else if self.is("tmux") {
            text::push_text(&mut out, paths::join(workdir.config.as_str(), "tmux-benchmark.conf"));
        }
        assert(text::texts(out@) =~= harness_paths(self.config@.adapter, *workdir));
        out
    }

    /// The configuration that the harness writes for the product, where it writes one.
    pub fn benchmark_config(&self) -> (r: Option<String>)
        ensures
            text::opt_text(r) == (if self.config@.adapter == "herdr"@ {
                Some(herdr_config(self.cols, self.rows))
            } else if self.config@.adapter == "tmux"@ {
                Some(TMUX_CONFIG@)
            } else {
                None
            }),
    {
        if self.is("herdr") {
            Some(herdr_benchmark_config(self.cols, self.rows))
        } else if self.is("tmux") {
            Some(tmux_benchmark_config())
        } else {
            None
        }
    }

    /// The keys that split the active pane.
    pub fn split_sequence(&self) -> (r: Vec<u8>)
        requires
            config::supported(self.config@.adapter),
        ensures
            r@ == (if self.config@.adapter == "uniterm"@ {
                seq![1u8, 37u8]
            } else if self.config@.adapter == "herdr"@ {
                seq![2u8, 118u8]
            } else {
                seq![2u8, 37u8]
            }),
    {
        if self.is("uniterm") {
            vec![1u8, 37u8]
        } else if self.is("herdr") {
            vec![2u8, 118u8]
        } else {
            vec![2u8, 37u8]
        }
    }

    /// The keys that detach the client.
    pub fn detach_sequence(&self) -> (r: Vec<u8>)
        requires
            config::supported(self.config@.adapter),
        ensures
            r@ == (if self.config@.adapter == "uniterm"@ {
                seq![1u8, 100u8]
            } else if self.config@.adapter == "herdr"@ {
                seq![2u8, 113u8]
            } else {
                seq![2u8, 100u8]
            }),
    {
        if self.is("uniterm") {
            vec![1u8, 100u8]
        } else if self.is("herdr") {
            vec![2u8, 113u8]
        } else {
            vec![2u8, 100u8]
        }
    }

    /// Of the processes that have appeared, the server of a session, where there is one.
    pub fn discover_server(
        &self,
        after: &ProcessSnapshot,
        before: &ProcessSnapshot,
        session_name: &str,
    ) -> (r: Option<u32>)
        ensures
            r == first_serving(
                after.processes@,
                process::matches(
                    after.processes@,
                    process::members(after.processes@.dom()),
                    before.processes@,
                    self.config@.binary,
                    session_name@,
                ),
            ),
    {
        let found: Vec<u32> = after.new_pids_matching(
            before,
            self.config.binary.as_str(),
            session_name,
        );
        let ghost m = after.processes@;
        let ghost all = found@;
        let mut i: usize = 0;
        assert(all.skip(0) =~= all);
        while i < found.len()
            invariant
                i <= found@.len(),
                all == found@,
                m == after.processes@,
                all == process::matches(
                    m,
                    process::members(m.dom()),
                    before.processes@,
                    self.config@.binary,
                    session_name@,
                ),
                first_serving(m, all) == first_serving(m, all.skip(i as int)),
            decreases found@.len() - i,
        {
            assert(all.skip(i as int)[0] == all[i as int]);
            assert(all.skip(i as int).skip(1) =~= all.skip(i + 1));
            if let Some(p) = after.processes.get(&found[i]) {
                if text::has(p.args.as_str(), "serve") {
                    return Some(found[i]);
                }
            }
            i = i + 1;
        }
        None
    }
}

/// The first of the processes that serves.
pub open spec fn first_serving(m: Map<u32, ProcessInfo>, pids: Seq<u32>) -> Option<u32>
    decreases pids.len(),
{
    if pids.len() == 0 {
        None
    } else if m.contains_key(pids[0]) && text::contains(m[pids[0]].args@, "serve"@) {
        Some(pids[0])
    } else {
        first_serving(m, pids.skip(1))
    }
}

pub open spec fn harness_paths(adapter: Seq<char>, w: IsolatedWorkdir) -> Seq<Seq<char>> {
    if adapter == "herdr"@ {
        seq![paths::joined(w.config@, "herdr-benchmark.toml"@)]
    } else if adapter == "tmux"@ {
        seq![paths::joined(w.config@, "tmux-benchmark.conf"@)]
    } else {
        Seq::empty()
    }
}

/// A product sees no variable but the search path, those of its private directories, those of
/// its own configuration, and those that tell Herdr its configuration and its session.
pub proof fn law_environments_hold_nothing_else(
    adapter: Seq<char>,
    own: Seq<(Seq<char>, Seq<char>)>,
    w: IsolatedWorkdir,
    path: Option<Seq<char>>,
    session: Option<Seq<char>>,
    key: Seq<char>,
)
    requires
        variable(adapter, own, w, path, session, key) is Some,
    ensures
        key == "PATH"@ || textmap::named(private_environment(w), key) || textmap::named(own, key)
            || (adapter == "herdr"@ && (key == "HERDR_CONFIG_PATH"@ || key == "HERDR_SESSION"@)),
{
}

/// Unless its own configuration says otherwise, a product finds its home and all its other
/// directories inside the private root.
pub proof fn law_products_stay_in_their_directories(
    adapter: Seq<char>,
    own: Seq<(Seq<char>, Seq<char>)>,
    w: IsolatedWorkdir,
    path: Option<Seq<char>>,
    session: Option<Seq<char>>,
    i: int,
)
    requires
        0 <= i < private_environment(w).len(),
        !textmap::named(own, private_environment(w)[i].0),
    ensures
        variable(adapter, own, w, path, session, private_environment(w)[i].0) == Some(
            private_environment(w)[i].1,
        ),
{
    lemma_private_environment(w);
    let all = private_environment(w);
    textmap::lemma_value_at(all, i);
    reveal_strlit("HERDR_SESSION");
    reveal_strlit("HERDR_CONFIG_PATH");
    assert(all[i].0.len() != 13 && all[i].0.len() != 17);
}

proof fn lemma_private_environment(w: IsolatedWorkdir)
    ensures
        textmap::ascending(private_environment(w)),
        forall|i: int|
            0 <= i < 10 ==> (#[trigger] private_environment(w)[i]).0.len() != 13
                && private_environment(w)[i].0.len() != 17,
{
    reveal_strlit("COLORTERM");
    reveal_strlit("HOME");
    reveal_strlit("LC_ALL");
    reveal_strlit("NO_COLOR");
    reveal_strlit("SHELL");
    reveal_strlit("TERM");
    reveal_strlit("XDG_CACHE_HOME");
    reveal_strlit("XDG_CONFIG_HOME");
    reveal_strlit("XDG_RUNTIME_DIR");
    reveal_strlit("XDG_STATE_HOME");
    text::lemma_before_at("COLORTERM"@, "HOME"@, 0);
    text::lemma_before_at("HOME"@, "LC_ALL"@, 0);
    text::lemma_before_at("LC_ALL"@, "NO_COLOR"@, 0);
    text::lemma_before_at("NO_COLOR"@, "SHELL"@, 0);
    text::lemma_before_at("SHELL"@, "TERM"@, 0);
    text::lemma_before_at("TERM"@, "XDG_CACHE_HOME"@, 0);
    text::lemma_before_at("XDG_CACHE_HOME"@, "XDG_CONFIG_HOME"@, 5);
    text::lemma_before_at("XDG_CONFIG_HOME"@, "XDG_RUNTIME_DIR"@, 4);
    text::lemma_before_at("XDG_RUNTIME_DIR"@, "XDG_STATE_HOME"@, 4);
    lemma_steps(private_environment(w), 9);
}

/// Names that rise from each to the next rise throughout.
proof fn lemma_steps(list: Seq<(Seq<char>, Seq<char>)>, n: int)
    requires
        -1 <= n < list.len(),
        forall|i: int| 0 <= i < n ==> text::before((#[trigger] list[i]).0, list[i + 1].0),
    ensures
        forall|i: int, j: int|
            0 <= i < j <= n ==> text::before((#[trigger] list[i]).0, (#[trigger] list[j]).0),
    decreases n,
{
    if n > 0 {
        lemma_steps(list, n - 1);
        assert forall|i: int, j: int| 0 <= i < j <= n implies text::before(
            (#[trigger] list[i]).0,
            (#[trigger] list[j]).0,
        ) by {
            if j == n {
                assert(text::before(list[n - 1].0, list[n - 1 + 1].0));
                if i < n - 1 {
                    assert(text::before(list[i].0, list[n - 1].0));
                    text::lemma_before_transitive(list[i].0, list[n - 1].0, list[n].0);
                }
            }
        }
    }
}

// ---------------------------------------------------------------------------------------------
// Configurations and answers of the products
// ---------------------------------------------------------------------------------------------

pub const HERDR_HEAD: &'static str =
    "onboarding = false\n\n[update]\nversion_check = false\nmanifest_check = false\n\n[terminal]\ndefault_shell = \"/bin/sh\"\nshell_mode = \"non_login\"\n\n[server]\nheadless_cols = ";

/// Herdr's configuration. Onboarding is off, so that a client opens on a terminal; so are the
/// version and manifest checks, which are its only network activity; and its headless grid has
/// the size of the attached clients.
pub open spec fn herdr_config(cols: u16, rows: u16) -> Seq<char> {
    HERDR_HEAD@ + decimal::decimal(cols as nat) + "\nheadless_rows = "@ + decimal::decimal(
        rows as nat,
    ) + "\n"@
}

/// Herdr's configuration for a terminal of this size.
pub fn herdr_benchmark_config(cols: u16, rows: u16) -> (r: String)
    ensures
        r@ == herdr_config(cols, rows),
{
    let head: String = text::cat(
        HERDR_HEAD.to_owned(),
        decimal::decimal_text(cols as u64).as_str(),
    );
    let middle: String = text::cat(head, "\nheadless_rows = ");
    text::cat(text::cat(middle, decimal::decimal_text(rows as u64).as_str()), "\n")
}

/// The configuration of tmux. A full-window split that is then tiled does not halve the active
/// pane again and again until it is too small. Status, history, redraw and escape timers keep
/// the product's defaults.
pub const TMUX_CONFIG: &'static str =
    "set -g default-shell /bin/sh\nset -g default-command 'exec /bin/sh'\nset -g default-terminal xterm-256color\nbind-key % split-window -h -f \\; select-layout tiled\n";

pub fn tmux_benchmark_config() -> (r: String)
    ensures
        r@ == TMUX_CONFIG@,
{
    TMUX_CONFIG.to_owned()
}

/// The server's process in what tmux printed; never a process that is not its own to stop.
pub open spec fn server_pid(output: Seq<char>) -> Option<u32> {
    match decimal::numeral_within(text::trim(output), u32::MAX as nat) {
        Some(n) => if n > 1 {
            Some(n as u32)
        } else {
            None
        },
        None => None,
    }
}

pub fn parse_server_pid(output: &str) -> (r: Result<u32, String>)
    ensures
        match r {
            Ok(pid) => server_pid(output@) == Some(pid) && pid > 1,
            Err(error) => server_pid(output@) is None && error@ == "invalid tmux server PID: "@
                + text::debugged(output@),
        },
{
    match decimal::parse_u32(text::trimmed(output).as_str()) {
        Some(pid) if pid > 1 => Ok(pid),
        _ => Err(
            text::cat("invalid tmux server PID: ".to_owned(), text::debug_text(output).as_str()),
        ),
    }
}

/// Uniterm says when it has started.
pub fn uniterm_started(output: &str) -> (r: Result<(), String>)
    ensures
        match r {
            Ok(_) => text::contains(output@, "started"@),
            Err(error) => !text::contains(output@, "started"@) && error@
                == "Uniterm did not report startup readiness: "@ + output@,
        },
{
    if text::has(output, "started") {
        Ok(())
    } else {
        Err(text::cat("Uniterm did not report startup readiness: ".to_owned(), output))
    }
}

/// The option by which a product prints its version.
pub fn version_argument(adapter: &str) -> (r: String)
    ensures
        r@ == (if adapter@ == "tmux"@ {
            "-V"@
        } else {
            "--version"@
        }),
{
    if text::same(adapter, "tmux") {
        "-V".to_owned()
    } else {
        "--version".to_owned()
    }
}

/// The output of a command, or why it failed.
pub fn checked_output(
    program: &str,
    success: bool,
    status: &str,
    stdout: &[u8],
    stderr: &[u8],
) -> (r: Result<String, String>)
    ensures
        match r {
            Ok(output) => success && output@ == text::trim(text::lossy(stdout@)),
            Err(error) => !success && error@ == "command "@ + text::debugged(program@)
                + " failed with "@ + status@ + ": "@ + text::trim(text::lossy(stderr@)),
        },
{
    if success {
        return Ok(text::trimmed(text::lossy_text(stdout).as_str()));
    }
    let head: String = text::cat("command ".to_owned(), text::debug_text(program).as_str());
    let why: String = text::cat(text::cat(head, " failed with "), status);
    Err(
        text::cat(
            text::cat(why, ": "),
            text::trimmed(text::lossy_text(stderr).as_str()).as_str(),
        ),
    )
}

/// Whether the path is that of a release build.
pub fn path_is_release_binary(path: &str) -> (r: bool)
    ensures
        r == paths::components(path@).contains("release"@),
{
    let list: Vec<String> = paths::components_of(path);
    let ghost view = text::texts(list@);
    let mut i: usize = 0;
    while i < list.len()
        invariant
            i <= list@.len(),
            view == text::texts(list@),
            view == paths::components(path@),
            forall|k: int| 0 <= k < i ==> #[trigger] view[k] != "release"@,
        decreases list@.len() - i,
    {
        assert(view[i as int] == list@[i as int]@);
        if text::same(list[i].as_str(), "release") {
            return true;
        }
        i = i + 1;
    }
    false
}

// ---------------------------------------------------------------------------------------------
// Waiting
// ---------------------------------------------------------------------------------------------

/// What to do after a probe: go on, probe again after so many milliseconds, or give up.
#[derive(Debug)]
pub enum Wait {
    Done,
    Again { millis: u64 },
    Failed { error: String },
}

/// What a `Wait` says.
pub ghost enum WaitModel {
    Done,
    Again { millis: u64 },
    Failed { error: Seq<char> },
}

impl View for Wait {
    type V = WaitModel;

    open spec fn view(&self) -> WaitModel {
        match self {
            Wait::Done => WaitModel::Done,
            Wait::Again { millis } => WaitModel::Again { millis: *millis },
            Wait::Failed { error } => WaitModel::Failed { error: error@ },
        }
    }
}

/// What to do after a probe that may have met its aim or run out of time.
pub open spec fn waiting(met: bool, overdue: bool, millis: u64, error: Seq<char>) -> WaitModel {
    if met {
        WaitModel::Done
    } else if overdue {
        WaitModel::Failed { error }
    } else {
        WaitModel::Again { millis }
    }
}

fn wait_on(met: bool, overdue: bool, millis: u64, error: String) -> (r: Wait)
    ensures
        r@ == waiting(met, overdue, millis, error@),
{
    if met {
        Wait::Done
    } else if overdue {
        Wait::Failed { error }
    } else {
        Wait::Again { millis }
    }
}

/// A server is ready once it lists its panes; one that has exited never will be. `elapsed` are
/// the milliseconds waited so far.
pub fn ready_next(listed: bool, exited: Option<&str>, elapsed: u64) -> (r: Wait)
    ensures
        r@ == (match exited {
            Some(status) if !listed => WaitModel::Failed {
                error: "server exited during startup with "@ + status@,
            },
            _ => waiting(
                listed,
                elapsed >= 8_000,
                20,
                "server did not become ready within 8 seconds"@,
            ),
        }),
{
    if !listed {
        if let Some(status) = exited {
            return Wait::Failed {
                error: text::cat("server exited during startup with ".to_owned(), status),
            };
        }
    }
    wait_on(
        listed,
        elapsed >= 8_000,
        20,
        "server did not become ready within 8 seconds".to_owned(),
    )
}

/// A server that was told to stop has done so once it was reaped or is no longer listed.
pub fn exit_next(reaped: bool, alive: bool, pid: u32, elapsed: u64) -> (r: Wait)
    ensures
        r@ == waiting(
            reaped || !alive,
            elapsed >= 5_000,
            15,
            "server "@ + decimal::decimal(pid as nat) + " did not exit within 5 seconds"@,
        ),
{
    let error: String = text::cat(
        text::cat("server ".to_owned(), decimal::decimal_text(pid as u64).as_str()),
        " did not exit within 5 seconds",
    );
    wait_on(reaped || !alive, elapsed >= 5_000, 15, error)
}

/// A server must appear among the processes after it has reported that it is ready.
pub fn discovery_next(found: bool, session_name: &str, elapsed: u64) -> (r: Wait)
    ensures
        r@ == waiting(
            found,
            elapsed >= 3_000,
            15,
            "could not discover Uniterm server process for "@ + session_name@,
        ),
{
    let error: String = text::cat(
        "could not discover Uniterm server process for ".to_owned(),
        session_name,
    );
    wait_on(found, elapsed >= 3_000, 15, error)
}

/// Waits until a cohort has at least so many members, and `timeout` milliseconds at most.
pub fn wait_for_process_count(members: usize, count: usize, elapsed: u64, timeout: u64) -> (r: Wait)
    ensures
        r@ == waiting(
            members >= count,
            elapsed >= timeout,
            20,
            "process cohort did not reach "@ + decimal::decimal(count as nat) + " members"@,
        ),
{
    let error: String = text::cat(
        text::cat(
            "process cohort did not reach ".to_owned(),
            decimal::decimal_text(count as u64).as_str(),
        ),
        " members",
    );
    wait_on(members >= count, elapsed >= timeout, 20, error)
}

/// Waits until a cohort has shrunk to at most so many members, and `timeout` milliseconds at most.
pub fn wait_for_process_count_at_most(
    members: usize,
    count: usize,
    elapsed: u64,
    timeout: u64,
) -> (r: Wait)
    ensures
        r@ == waiting(
            members <= count,
            elapsed >= timeout,
            20,
            "process cohort did not shrink to "@ + decimal::decimal(count as nat) + " members"@,
        ),
{
    let error: String = text::cat(
        text::cat(
            "process cohort did not shrink to ".to_owned(),
            decimal::decimal_text(count as u64).as_str(),
        ),
        " members",
    );
    wait_on(members <= count, elapsed >= timeout, 20, error)
}

/// A status command that fails ends the control-latency trials.
pub fn check_probe(success: bool, status: &str) -> (r: Result<(), String>)
    ensures
        match r {
            Ok(_) => success,
            Err(error) => !success && error@ == "command latency probe exited with "@ + status@,
        },
{
    if success {
        Ok(())
    } else {
        Err(text::cat("command latency probe exited with ".to_owned(), status))
    }
}

/// A stop command that fails leaves the session as it is.
pub fn check_stop(success: bool, status: &str, stderr: &[u8]) -> (r: Result<(), String>)
    ensures
        match r {
            Ok(_) => success,
            Err(error) => !success && error@ == "server stop failed with "@ + status@ + ": "@
                + text::trim(text::lossy(stderr@)),
        },
{
    if success {
        return Ok(());
    }
    let head: String = text::cat("server stop failed with ".to_owned(), status);
    Err(
        text::cat(
            text::cat(head, ": "),
            text::trimmed(text::lossy_text(stderr).as_str()).as_str(),
        ),
    )
}

/// A session can be started again only where it was stopped.
pub fn check_restart(stopped: bool) -> (r: Result<(), String>)
    ensures
        match r {
            Ok(_) => stopped,
            Err(error) => !stopped && error@ == "restart requires a stopped session"@,
        },
{
    if stopped {
        Ok(())
    } else {
        Err("restart requires a stopped session".to_owned())
    }
}

/// The sum of some sizes.
pub open spec fn total(sizes: Seq<u64>) -> nat
    decreases sizes.len(),
{
    if sizes.len() == 0 {
        0
    } else {
        total(sizes.drop_last()) + sizes.last() as nat
    }
}

fn sum(sizes: &Vec<u64>) -> (r: u64)
    ensures
        r == sums::capped(total(sizes@)),
{
    let mut out: u64 = 0;
    let mut i: usize = 0;
    while i < sizes.len()
        invariant
            i <= sizes@.len(),
            out == sums::capped(total(sizes@.take(i as int))),
        decreases sizes@.len() - i,
    {
        assert(sizes@.take(i + 1).drop_last() =~= sizes@.take(i as int));
        out = sums::plus(out, sizes[i]);
        i = i + 1;
    }
    assert(sizes@.take(i as int) =~= sizes@);
    out
}

/// The bytes that a product has kept in its directories: what lies there, less what the harness
/// itself has put there.
pub fn state_bytes(kept: &Vec<u64>, harness: &Vec<u64>) -> (r: u64)
    ensures
        r == (if sums::capped(total(kept@)) >= sums::capped(total(harness@)) {
            sums::capped(total(kept@)) - sums::capped(total(harness@))
        } else {
            0
        }),
{
    let all: u64 = sum(kept);
    let own: u64 = sum(harness);
    if all >= own {
        all - own
    } else {
        0
    }
}

} // verus!
