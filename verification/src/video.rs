//! TV playback in a separate player process: what the process is asked to do.

use vstd::prelude::*;
use crate::text::join3;

verus! {

/// Failures of the TV player.
#[derive(Debug, Clone, PartialEq, Eq)]
pub enum VideoError {
    /// The process could not be started.
    Spawn(String),
}

impl VideoError {
    /// The failure in words.
    pub fn text(&self) -> (r: String)
        ensures
            match *self {
                VideoError::Spawn(why) => r@ == "the TV player (mpv) could not be started: "@ + why@
                    + ""@,
            },
    {
        match self {
            VideoError::Spawn(why) => join3(
                "the TV player (mpv) could not be started: ",
                why.as_str(),
                "",
            ),
        }
    }
}

/// A request to play one channel.
#[derive(Debug, Clone, PartialEq, Eq)]
pub struct PlayRequest {
    pub url: String,
    pub title: String,
    pub user_agent: Option<String>,
    pub referrer: Option<String>,
}

/// The content of a [`PlayRequest`].
pub struct PlayRequestView {
    pub url: Seq<char>,
    pub title: Seq<char>,
    pub user_agent: Option<Seq<char>>,
    pub referrer: Option<Seq<char>>,
}

impl View for PlayRequest {
    type V = PlayRequestView;

    open spec fn view(&self) -> PlayRequestView {
        PlayRequestView {
            url: self.url@,
            title: self.title@,
            user_agent: crate::types::text_of(self.user_agent),
            referrer: crate::types::text_of(self.referrer),
        }
    }
}

/// The option for a header; none where it is absent or empty.
pub open spec fn header_option(lead: Seq<char>, value: Option<Seq<char>>) -> Seq<Seq<char>> {
    match value {
        Some(v) if v.len() > 0 => seq![lead + v + ""@],
        _ => Seq::empty(),
    }
}

/// The options for a request.
pub open spec fn options_of(req: PlayRequestView) -> Seq<Seq<char>> {
    seq![
        "--force-window=immediate"@,
        "--osc=yes"@,
        "--keep-open=no"@,
        "--idle=no"@,
        "--cache=yes"@,
        "--network-timeout=30"@,
        "--force-media-title="@ + req.title + ""@,
        "--title=HypeMuzik TV — "@ + req.title + ""@,
    ] + header_option("--user-agent="@, req.user_agent) + header_option(
        "--referrer="@,
        req.referrer,
    )
}

/// The arguments for a request: the options, the mark that ends them, and the address.
pub open spec fn args_of(req: PlayRequestView) -> Seq<Seq<char>> {
    options_of(req) + seq!["--"@, req.url]
}

fn push_header(args: &mut Vec<String>, lead: &str, value: &Option<String>)
    ensures
        crate::text::texts(final(args)@) == crate::text::texts(old(args)@) + header_option(
            lead@,
            crate::types::text_of(*value),
        ),
{
    let ghost before = crate::text::texts(args@);
    if let Some(v) = value {
        if !v.as_str().is_empty() {
            args.push(join3(lead, v.as_str(), ""));
        }
    }
    assert(crate::text::texts(args@) =~= before + header_option(
        lead@,
        crate::types::text_of(*value),
    ));
}

/// The arguments of the player for a request. The window is shown at once, and a stalled server is
/// given up after a while; the address can never be taken for an option.
pub fn build_args(req: &PlayRequest) -> (r: Vec<String>)
    ensures
        crate::text::texts(r@) == args_of(req@),
{
    let mut args: Vec<String> = Vec::new();
    args.push("--force-window=immediate".to_owned());
    args.push("--osc=yes".to_owned());
    args.push("--keep-open=no".to_owned());
    args.push("--idle=no".to_owned());
    args.push("--cache=yes".to_owned());
    args.push("--network-timeout=30".to_owned());
    args.push(join3("--force-media-title=", req.title.as_str(), ""));
    args.push(join3("--title=HypeMuzik TV — ", req.title.as_str(), ""));
    assert(crate::text::texts(args@) =~= seq![
        "--force-window=immediate"@,
        "--osc=yes"@,
        "--keep-open=no"@,
        "--idle=no"@,
        "--cache=yes"@,
        "--network-timeout=30"@,
        "--force-media-title="@ + req@.title + ""@,
        "--title=HypeMuzik TV — "@ + req@.title + ""@,
    ]);
    push_header(&mut args, "--user-agent=", &req.user_agent);
    push_header(&mut args, "--referrer=", &req.referrer);
    assert(crate::text::texts(args@) == options_of(req@));
    args.push("--".to_owned());
    args.push(req.url.clone());
    assert(crate::text::texts(args@) =~= args_of(req@));
    args
}

/// The address is the last argument, directly behind the mark that ends the options, and that mark
/// stands nowhere before.
pub proof fn law_the_address_is_never_an_option(req: PlayRequestView, i: int)
    ensures
        args_of(req).last() == req.url,
        args_of(req)[args_of(req).len() - 2] == "--"@,
        0 <= i < args_of(req).len() - 2 ==> args_of(req)[i] != "--"@,
{
    reveal_strlit("--");
    reveal_strlit("--force-window=immediate");
    reveal_strlit("--osc=yes");
    reveal_strlit("--keep-open=no");
    reveal_strlit("--idle=no");
    reveal_strlit("--cache=yes");
    reveal_strlit("--network-timeout=30");
    reveal_strlit("--force-media-title=");
    reveal_strlit("--title=HypeMuzik TV — ");
    reveal_strlit("--user-agent=");
    reveal_strlit("--referrer=");
    let o = options_of(req);
    assert(args_of(req).len() == o.len() + 2);
    if 0 <= i < o.len() {
        assert(args_of(req)[i] == o[i]);
        if i < 8 {
            assert(o[i].len() > 2);
        } else {
            let ua = header_option("--user-agent="@, req.user_agent);
            let rf = header_option("--referrer="@, req.referrer);
            if i < 8 + ua.len() {
                assert(o[i] == ua[i - 8]);
            } else {
                assert(o[i] == rf[i - 8 - ua.len()]);
            }
            assert(o[i].len() > 2);
        }
    }
}

/// What the system says of the player process.
#[derive(Debug, Clone, Copy, PartialEq, Eq, Structural)]
pub enum ChildStatus {
    Exited,
    Running,
    Unknown,
}

/// Whether a channel is playing, given what the system says of the process where there is one. A
/// process that is not known to run is given up.
pub fn is_running(child: Option<ChildStatus>) -> (r: bool)
    ensures
        r == (child == Some(ChildStatus::Running)),
{
    match child {
        Some(ChildStatus::Running) => true,
        _ => false,
    }
}

} // verus!
