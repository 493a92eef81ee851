//! What the panel asks of NetworkManager and how it reads the replies: the
//! Wi-Fi radio, DNS providers, connection outcomes, and the multi-step
//! band and DNS changes, which are run one `nmcli` call at a time.

use vstd::prelude::*;
use crate::band::nm_band_for;
use crate::band::nm_band;
use crate::text::{chars_of, contains, contains_lit, is, string_views, trim, trim_chars, trim_start};

verus! {

pub const DNS_CLOUDFLARE: &'static str = "1.1.1.1,1.0.0.1";

pub const DNS_GOOGLE: &'static str = "8.8.8.8,8.8.4.4";

pub open spec fn opt_text(o: Option<&str>) -> Seq<char> {
    match o {
        Some(s) => s@,
        None => Seq::<char>::empty(),
    }
}

pub open spec fn opt_string(o: Option<String>) -> Option<Seq<char>> {
    match o {
        Some(s) => Some(s@),
        None => None,
    }
}

/// Whether the radio is on, from the output of `nmcli radio wifi`.
pub fn wifi_enabled(output: Option<&str>) -> (r: bool)
    ensures
        r == (output is Some && trim(opt_text(output)) == "enabled"@),
{
    match output {
        Some(o) => {
            let c = chars_of(o);
            let t = trim_chars(c.as_slice());
            is(t.as_slice(), "enabled")
        },
        None => false,
    }
}

/// The outcome of `nmcli connection up id <ssid>`.
pub fn connect_known(reply: Option<String>) -> (r: Result<(), String>)
    ensures
        match r {
            Ok(()) => reply is Some,
            Err(e) => reply is None && e@ == "Failed to connect"@,
        },
{
    match reply {
        Some(_) => Ok(()),
        None => Err(String::from_str("Failed to connect")),
    }
}

/// The outcome of `nmcli connection down id <ssid>`.
pub fn disconnect(reply: Option<String>) -> (r: Result<(), String>)
    ensures
        match r {
            Ok(()) => reply is Some,
            Err(e) => reply is None && e@ == "Failed to disconnect"@,
        },
{
    match reply {
        Some(_) => Ok(()),
        None => Err(String::from_str("Failed to disconnect")),
    }
}

/// The outcome of `nmcli connection delete id <ssid>`.
pub fn forget(reply: Option<String>) -> (r: Result<(), String>)
    ensures
        match r {
            Ok(()) => reply is Some,
            Err(e) => reply is None && e@ == "Failed to forget"@,
        },
{
    match reply {
        Some(_) => Ok(()),
        None => Err(String::from_str("Failed to forget")),
    }
}

/// `nmcli radio wifi on|off`.
pub open spec fn radio_args(enabled: bool) -> Seq<Seq<char>> {
    seq!["radio"@, "wifi"@, if enabled { "on"@ } else { "off"@ }]
}

/// Switches the Wi-Fi radio: the `nmcli` arguments to run.
pub fn set_wifi_enabled(enabled: bool) -> (args: Vec<String>)
    ensures
        string_views(args@) == radio_args(enabled),
{
    let state = if enabled {
        String::from_str("on")
    } else {
        String::from_str("off")
    };
    let args = vec![String::from_str("radio"), String::from_str("wifi"), state];
    assert(string_views(args@) =~= radio_args(enabled));
    args
}

/// The outcome of switching the radio, from whether nmcli succeeded.
pub fn radio_outcome(succeeded: bool) -> (r: Result<(), String>)
    ensures
        match r {
            Ok(()) => succeeded,
            Err(e) => !succeeded && e@ == "Could not toggle Wi-Fi"@,
        },
{
    if succeeded {
        Ok(())
    } else {
        Err(String::from_str("Could not toggle Wi-Fi"))
    }
}

/// `nmcli device wifi connect <ssid>`. An open or OWE network takes no
/// credentials, so a password must be absent from the command line rather
/// than empty: nmcli rejects an empty one.
pub open spec fn connect_open_args(ssid: Seq<char>) -> Seq<Seq<char>> {
    seq!["device"@, "wifi"@, "connect"@, ssid]
}

pub fn connect_open(ssid: &str) -> (args: Vec<String>)
    ensures
        string_views(args@) == connect_open_args(ssid@),
{
    let args = vec![
        String::from_str("device"),
        String::from_str("wifi"),
        String::from_str("connect"),
        String::from_str(ssid),
    ];
    assert(string_views(args@) =~= connect_open_args(ssid@));
    args
}

/// `nmcli device wifi connect <ssid> password <password>`. nmcli offers no
/// stdin path for this command, so the passphrase is an argument.
pub open spec fn connect_psk_args(ssid: Seq<char>, password: Seq<char>) -> Seq<Seq<char>> {
    connect_open_args(ssid) + seq!["password"@, password]
}

pub fn connect_psk(ssid: &str, password: &str) -> (args: Vec<String>)
    ensures
        string_views(args@) == connect_psk_args(ssid@, password@),
{
    let mut args = connect_open(ssid);
    args.push(String::from_str("password"));
    args.push(String::from_str(password));
    assert(string_views(args@) =~= connect_psk_args(ssid@, password@));
    args
}

/// The shell script that joins a WPA-Enterprise (PEAP/MSCHAPv2) network:
/// it adds the profile, feeds the password from its standard input to
/// nmcli's editor (argv is world-readable in /proc, so the secret is never
/// an argument), brings the profile up, and deletes it again on failure.
pub const ENTERPRISE_SCRIPT: &'static str = "u=$(uuidgen); IFS= read -r pw;\n nmcli connection add type wifi con-name \"$1\" ssid \"$1\" connection.uuid \"$u\" \\\n  wifi-sec.key-mgmt wpa-eap 802-1x.eap peap 802-1x.phase2-auth mschapv2 \\\n  802-1x.identity \"$2\" 802-1x.auth-timeout 8 >/dev/null \\\n && printf 'set 802-1x.password %s\\nsave\\nquit\\n' \"$pw\" | nmcli connection edit uuid \"$u\" >/dev/null \\\n && nmcli connection up uuid \"$u\" \\\n || { nmcli connection delete uuid \"$u\" >/dev/null 2>&1; false; }";

/// `bash -c <script> bash <ssid> <identity>`.
pub open spec fn enterprise_args(ssid: Seq<char>, identity: Seq<char>) -> Seq<Seq<char>> {
    seq!["-c"@, ENTERPRISE_SCRIPT@, "bash"@, ssid, identity]
}

/// Joins a WPA-Enterprise network: the `bash` arguments to run, and the
/// line to write to its standard input (the password).
pub fn connect_enterprise(ssid: &str, identity: &str, password: &str) -> (r: (Vec<String>, String))
    ensures
        string_views(r.0@) == enterprise_args(ssid@, identity@),
        r.1@ == password@.push('\n'),
{
    let args = vec![
        String::from_str("-c"),
        String::from_str(ENTERPRISE_SCRIPT),
        String::from_str("bash"),
        String::from_str(ssid),
        String::from_str(identity),
    ];
    assert(string_views(args@) =~= enterprise_args(ssid@, identity@));
    let mut line = chars_of(password);
    line.push('\n');
    (args, crate::text::string_from_chars(line.as_slice()))
}

/// What a finished process reported.
pub struct ProcessReply {
    pub success: bool,
    pub stderr: String,
}

/// The outcome of a connect attempt: `Err` with the reason when the
/// process could not be run or fed, success, or the phrase for what nmcli
/// wrote to its standard error.
pub fn connect_outcome(reply: Result<ProcessReply, String>) -> (r: Result<(), String>)
    ensures
        match reply {
            Err(e) => r matches Err(x) && x@ == e@,
            Ok(p) => if p.success {
                r is Ok
            } else {
                r matches Err(x) && x@ == failure_phrase(lowercase_of(p.stderr@))
            },
        },
{
    match reply {
        Err(e) => Err(e),
        Ok(p) => if p.success {
            Ok(())
        } else {
            Err(failure_reason(p.stderr.as_str()))
        },
    }
}

// ---------------------------------------------------------------------------
// Why a connection attempt failed
// ---------------------------------------------------------------------------

/// `str::to_lowercase`: the Unicode lowercase mapping of each character.
pub uninterp spec fn lowercase_of(s: Seq<char>) -> Seq<char>;

/// `str::to_lowercase`.
#[verifier::external_body]
fn lowercase(s: &str) -> (r: String)
    ensures
        r@ == lowercase_of(s@),
{
    s.to_lowercase()
}

/// The short phrase for nmcli's lowercased standard error.
pub open spec fn failure_phrase(lower: Seq<char>) -> Seq<char> {
    if contains(lower, "secrets were required"@) || contains(lower, "no secrets"@) {
        "Passphrase required"@
    } else if contains(lower, "802.1x supplicant"@) || contains(lower, "timeout"@) {
        "Wrong password"@
    } else if contains(lower, "no network with ssid"@) {
        "Network lost"@
    } else {
        "Failed to connect"@
    }
}

/// The phrase for a connection failure, given nmcli's standard error already
/// lowercased.
pub fn failure_reason_lowercased(lower: &str) -> (r: String)
    ensures
        r@ == failure_phrase(lower@),
{
    let l = chars_of(lower);
    if contains_lit(l.as_slice(), "secrets were required") || contains_lit(
        l.as_slice(),
        "no secrets",
    ) {
        String::from_str("Passphrase required")
    } else if contains_lit(l.as_slice(), "802.1x supplicant") || contains_lit(
        l.as_slice(),
        "timeout",
    ) {
        String::from_str("Wrong password")
    } else if contains_lit(l.as_slice(), "no network with ssid") {
        String::from_str("Network lost")
    } else {
        String::from_str("Failed to connect")
    }
}

/// nmcli's standard error mapped onto the short phrases the panel shows.
pub fn failure_reason(stderr: &str) -> (r: String)
    ensures
        r@ == failure_phrase(lowercase_of(stderr@)),
{
    let lower = lowercase(stderr);
    failure_reason_lowercased(lower.as_str())
}

// ---------------------------------------------------------------------------
// DNS
// ---------------------------------------------------------------------------

/// The provider that a profile's `ipv4.dns` setting names.
pub open spec fn dns_label(profile: Seq<char>, servers: Seq<char>) -> Seq<char> {
    let s = trim(servers);
    if profile.len() == 0 || s.len() == 0 {
        "DHCP"@
    } else if s == DNS_CLOUDFLARE@ {
        "Cloudflare"@
    } else if s == DNS_GOOGLE@ {
        "Google"@
    } else {
        "Custom"@
    }
}

/// The DNS provider of `profile`, from the output of
/// `nmcli -e no -g ipv4.dns connection show <profile>`. "Custom" means
/// servers configured outside the panel.
pub fn dns_provider(profile: &str, servers: Option<&str>) -> (r: String)
    ensures
        r@ == dns_label(profile@, opt_text(servers)),
{
    let s: Vec<char> = match servers {
        Some(v) => {
            let c = chars_of(v);
            trim_chars(c.as_slice())
        },
        None => Vec::new(),
    };
    proof {
        if servers is None {
            assert(trim(Seq::<char>::empty()) =~= Seq::<char>::empty());
        }
    }
    if profile.unicode_len() == 0 || s.len() == 0 {
        String::from_str("DHCP")
    } else if is(s.as_slice(), DNS_CLOUDFLARE) {
        String::from_str("Cloudflare")
    } else if is(s.as_slice(), DNS_GOOGLE) {
        String::from_str("Google")
    } else {
        String::from_str("Custom")
    }
}

/// The servers the panel writes for a provider pill.
pub open spec fn servers_of(provider: Seq<char>) -> Seq<char> {
    if provider == "Cloudflare"@ {
        DNS_CLOUDFLARE@
    } else if provider == "Google"@ {
        DNS_GOOGLE@
    } else {
        Seq::<char>::empty()
    }
}

pub fn dns_servers_for(provider: &str) -> (r: &'static str)
    ensures
        r@ == servers_of(provider@),
{
    proof {
        reveal_strlit("");
    }
    let p = chars_of(provider);
    if is(p.as_slice(), "Cloudflare") {
        DNS_CLOUDFLARE
    } else if is(p.as_slice(), "Google") {
        DNS_GOOGLE
    } else {
        ""
    }
}

/// Choosing a provider pill and reading the profile's DNS back names the
/// same provider.
pub proof fn law_dns_choice_round_trip(profile: Seq<char>, provider: Seq<char>)
    requires
        profile.len() > 0,
        provider == "DHCP"@ || provider == "Cloudflare"@ || provider == "Google"@,
    ensures
        dns_label(profile, servers_of(provider)) == provider,
{
    reveal_strlit("DHCP");
    reveal_strlit("Cloudflare");
    reveal_strlit("Google");
    reveal_strlit("1.1.1.1,1.0.0.1");
    reveal_strlit("8.8.8.8,8.8.4.4");
    let s = servers_of(provider);
    if provider == "DHCP"@ {
        assert("DHCP"@.len() == 4 && "Cloudflare"@.len() == 10 && "Google"@.len() == 6);
        assert("DHCP"@ != "Cloudflare"@ && "DHCP"@ != "Google"@);
        assert(s =~= Seq::<char>::empty());
        assert(trim_start(s) =~= Seq::<char>::empty());
        assert(trim(s) =~= Seq::<char>::empty());
    } else {
        assert(trim(s) == s);
        assert(s != Seq::<char>::empty());
        assert(DNS_CLOUDFLARE@ != DNS_GOOGLE@);
    }
}

// ---------------------------------------------------------------------------
// Multi-step changes
// ---------------------------------------------------------------------------

/// What to do next: run `nmcli` with these arguments and report back its
/// standard output (`None` when it could not run or failed), or stop with
/// this result.
#[derive(Debug)]
pub enum NmStep {
    Run(Vec<String>),
    Done(Result<(), String>),
}

pub enum StepView {
    Run(Seq<Seq<char>>),
    Done(Result<(), Seq<char>>),
}

impl View for NmStep {
    type V = StepView;

    open spec fn view(&self) -> StepView {
        match self {
            NmStep::Run(args) => StepView::Run(string_views(args@)),
            NmStep::Done(Ok(())) => StepView::Done(Ok(())),
            NmStep::Done(Err(e)) => StepView::Done(Err(e@)),
        }
    }
}

pub open spec fn band_show_args(profile: Seq<char>) -> Seq<Seq<char>> {
    seq!["-e"@, "no"@, "-g"@, "802-11-wireless.band"@, "connection"@, "show"@, profile]
}

pub open spec fn band_modify_args(profile: Seq<char>, value: Seq<char>) -> Seq<Seq<char>> {
    seq!["connection"@, "modify"@, profile, "802-11-wireless.band"@, value]
}

pub open spec fn up_args(profile: Seq<char>) -> Seq<Seq<char>> {
    seq!["connection"@, "up"@, profile]
}

fn band_show_cmd(profile: &String) -> (r: Vec<String>)
    ensures
        string_views(r@) == band_show_args(profile@),
{
    let r = vec![
        String::from_str("-e"),
        String::from_str("no"),
        String::from_str("-g"),
        String::from_str("802-11-wireless.band"),
        String::from_str("connection"),
        String::from_str("show"),
        profile.clone(),
    ];
    assert(string_views(r@) =~= band_show_args(profile@));
    r
}

fn band_modify_cmd(profile: &String, value: &String) -> (r: Vec<String>)
    ensures
        string_views(r@) == band_modify_args(profile@, value@),
{
    let r = vec![
        String::from_str("connection"),
        String::from_str("modify"),
        profile.clone(),
        String::from_str("802-11-wireless.band"),
        value.clone(),
    ];
    assert(string_views(r@) =~= band_modify_args(profile@, value@));
    r
}

fn up_cmd(profile: &String) -> (r: Vec<String>)
    ensures
        string_views(r@) == up_args(profile@),
{
    let r = vec![String::from_str("connection"), String::from_str("up"), profile.clone()];
    assert(string_views(r@) =~= up_args(profile@));
    r
}

#[derive(Debug, Clone, Copy, PartialEq, Eq, Structural)]
pub enum BandStage {
    ReadPrevious,
    Modify,
    Activate,
    Revert,
    Reactivate,
    Finished,
}

/// A band change in progress. A band change only takes effect on
/// reassociation; if the radio cannot come back up on the requested band,
/// the previous setting is put back and reconnected rather than leaving the
/// machine stranded offline.
#[derive(Debug)]
pub struct BandChange {
    profile: String,
    target: String,
    desired: String,
    previous: String,
    stage: BandStage,
}

pub struct BandChangeView {
    pub profile: Seq<char>,
    pub target: Seq<char>,
    pub desired: Seq<char>,
    pub previous: Seq<char>,
    pub stage: BandStage,
}

impl View for BandChange {
    type V = BandChangeView;

    closed spec fn view(&self) -> BandChangeView {
        BandChangeView {
            profile: self.profile@,
            target: self.target@,
            desired: self.desired@,
            previous: self.previous@,
            stage: self.stage,
        }
    }
}

/// The `802-11-wireless.band` value for a target band ("" unpins).
pub open spec fn desired_setting(target: Seq<char>) -> Seq<char> {
    if target == "auto"@ {
        Seq::<char>::empty()
    } else {
        nm_band(target)->0
    }
}

/// How a band change starts.
pub open spec fn band_start(profile: Seq<char>, target: Seq<char>) -> (BandChangeView, StepView) {
    let finished = BandChangeView {
        profile,
        target,
        desired: seq![],
        previous: seq![],
        stage: BandStage::Finished,
    };
    if profile.len() == 0 {
        (finished, StepView::Done(Err("No active Wi-Fi connection profile"@)))
    } else if target != "auto"@ && nm_band(target) is None {
        (finished, StepView::Done(Err("Unknown band "@ + target)))
    } else {
        (
            BandChangeView { desired: desired_setting(target), stage: BandStage::ReadPrevious, ..finished },
            StepView::Run(band_show_args(profile)),
        )
    }
}

/// How a band change goes on after `reply`.
pub open spec fn band_next(m: BandChangeView, reply: Option<Seq<char>>) -> (BandChangeView, StepView) {
    let done = BandChangeView { stage: BandStage::Finished, ..m };
    match m.stage {
        BandStage::ReadPrevious => {
            let previous = trim(
                match reply {
                    Some(o) => o,
                    None => seq![],
                },
            );
            if previous == m.desired {
                (done, StepView::Done(Ok(())))
            } else {
                (
                    BandChangeView { previous, stage: BandStage::Modify, ..m },
                    StepView::Run(band_modify_args(m.profile, m.desired)),
                )
            }
        },
        BandStage::Modify => if reply is None {
            (done, StepView::Done(Err("Could not set band"@)))
        } else {
            (BandChangeView { stage: BandStage::Activate, ..m }, StepView::Run(up_args(m.profile)))
        },
        BandStage::Activate => if reply is Some {
            (done, StepView::Done(Ok(())))
        } else {
            (
                BandChangeView { stage: BandStage::Revert, ..m },
                StepView::Run(band_modify_args(m.profile, m.previous)),
            )
        },
        BandStage::Revert => (
            BandChangeView { stage: BandStage::Reactivate, ..m },
            StepView::Run(up_args(m.profile)),
        ),
        _ => (
            done,
            StepView::Done(Err("Could not connect on "@ + m.target + "GHz; reverted"@)),
        ),
    }
}

/// Starts pinning `profile` to `target` ("2.4", "5", "6", or "auto").
pub fn set_band(profile: &str, target: &str) -> (r: (BandChange, NmStep))
    ensures
        (r.0@, r.1@) == band_start(profile@, target@),
{
    let mut m = BandChange {
        profile: String::from_str(profile),
        target: String::from_str(target),
        desired: String::new(),
        previous: String::new(),
        stage: BandStage::Finished,
    };
    if profile.unicode_len() == 0 {
        return (m, NmStep::Done(Err(String::from_str("No active Wi-Fi connection profile"))));
    }
    let t = chars_of(target);
    let desired = if is(t.as_slice(), "auto") {
        String::new()
    } else {
        match nm_band_for(target) {
            Some(v) => String::from_str(v),
            None => {
                let mut msg = String::from_str("Unknown band ");
                msg.append(target);
                return (m, NmStep::Done(Err(msg)));
            },
        }
    };
    m.desired = desired;
    m.stage = BandStage::ReadPrevious;
    let args = band_show_cmd(&m.profile);
    (m, NmStep::Run(args))
}

impl BandChange {
    pub open spec fn finished(&self) -> bool {
        self@.stage == BandStage::Finished
    }

    /// Takes the reply to the last `Run` step and says what to do next.
    pub fn advance(&mut self, reply: Option<String>) -> (step: NmStep)
        requires
            !old(self).finished(),
        ensures
            (final(self)@, step@) == band_next(old(self)@, opt_string(reply)),
    {
        match self.stage {
            BandStage::ReadPrevious => {
                let out: Vec<char> = match &reply {
                    Some(o) => chars_of(o.as_str()),
                    None => Vec::new(),
                };
                let previous = trim_chars(out.as_slice());
                let d = chars_of(self.desired.as_str());
                if crate::text::same(previous.as_slice(), d.as_slice()) {
                    self.stage = BandStage::Finished;
                    NmStep::Done(Ok(()))
                } else {
                    self.previous = crate::text::string_from_chars(previous.as_slice());
                    self.stage = BandStage::Modify;
                    NmStep::Run(band_modify_cmd(&self.profile, &self.desired))
                }
            },
            BandStage::Modify => {
                if reply.is_none() {
                    self.stage = BandStage::Finished;
                    NmStep::Done(Err(String::from_str("Could not set band")))
                } else {
                    self.stage = BandStage::Activate;
                    NmStep::Run(up_cmd(&self.profile))
                }
            },
            BandStage::Activate => {
                if reply.is_some() {
                    self.stage = BandStage::Finished;
                    NmStep::Done(Ok(()))
                } else {
                    self.stage = BandStage::Revert;
                    NmStep::Run(band_modify_cmd(&self.profile, &self.previous))
                }
            },
            BandStage::Revert => {
                self.stage = BandStage::Reactivate;
                NmStep::Run(up_cmd(&self.profile))
            },
            _ => {
                self.stage = BandStage::Finished;
                let mut msg = String::from_str("Could not connect on ");
                msg.append(self.target.as_str());
                msg.append("GHz; reverted");
                NmStep::Done(Err(msg))
            },
        }
    }
}

/// When the profile cannot come back up on the requested band, the next two
/// calls put the previous setting back and reconnect, and the change then
/// ends in an error saying so.
pub proof fn law_failed_band_change_is_reverted(
    m: BandChangeView,
    reply2: Option<Seq<char>>,
    reply3: Option<Seq<char>>,
)
    requires
        m.stage == BandStage::Activate,
    ensures
        band_next(m, None).1 == StepView::Run(band_modify_args(m.profile, m.previous)),
        band_next(band_next(m, None).0, reply2).1 == StepView::Run(up_args(m.profile)),
        band_next(band_next(band_next(m, None).0, reply2).0, reply3).1 == StepView::Done(
            Err("Could not connect on "@ + m.target + "GHz; reverted"@),
        ),
        band_next(band_next(band_next(m, None).0, reply2).0, reply3).0.stage == BandStage::Finished,
{
}

/// How many replies a band change can still take at most.
pub open spec fn band_steps_left(stage: BandStage) -> nat {
    match stage {
        BandStage::ReadPrevious => 5,
        BandStage::Modify => 4,
        BandStage::Activate => 3,
        BandStage::Revert => 2,
        BandStage::Reactivate => 1,
        BandStage::Finished => 0,
    }
}

/// A band change that asks for an nmcli call is never finished (so its
/// reply can always be handed back), a finished one says how it ended, and
/// every reply brings the end closer: no change takes more than five.
pub proof fn law_band_change_ends(profile: Seq<char>, target: Seq<char>, m: BandChangeView, reply: Option<Seq<char>>)
    requires
        m.stage != BandStage::Finished,
    ensures
        band_start(profile, target).1 is Run <==> band_start(profile, target).0.stage != BandStage::Finished,
        band_next(m, reply).1 is Run <==> band_next(m, reply).0.stage != BandStage::Finished,
        band_steps_left(band_next(m, reply).0.stage) < band_steps_left(m.stage),
        band_steps_left(band_start(profile, target).0.stage) <= 5,
{
}

/// When the profile already carries the requested band, nothing is changed.
pub proof fn law_band_already_set_changes_nothing(m: BandChangeView, reply: Seq<char>)
    requires
        m.stage == BandStage::ReadPrevious,
        trim(reply) == m.desired,
    ensures
        band_next(m, Some(reply)).1 == StepView::Done(Ok(())),
{
}

pub open spec fn dns_modify_args(profile: Seq<char>, key: Seq<char>, value: Seq<char>) -> Seq<Seq<char>> {
    seq!["connection"@, "modify"@, profile, key, value]
}

fn dns_modify_cmd(profile: &String, key: &str, value: &str) -> (r: Vec<String>)
    ensures
        string_views(r@) == dns_modify_args(profile@, key@, value@),
{
    let r = vec![
        String::from_str("connection"),
        String::from_str("modify"),
        profile.clone(),
        String::from_str(key),
        String::from_str(value),
    ];
    assert(string_views(r@) =~= dns_modify_args(profile@, key@, value@));
    r
}

#[derive(Debug, Clone, Copy, PartialEq, Eq, Structural)]
pub enum DnsStage {
    Servers,
    IgnoreAuto,
    Activate,
    Finished,
}

/// A DNS change in progress. Writing `ipv4.dns` only takes effect on
/// reactivation, so the profile is bounced the same way a band change is.
#[derive(Debug)]
pub struct DnsChange {
    profile: String,
    servers: String,
    stage: DnsStage,
}

pub struct DnsChangeView {
    pub profile: Seq<char>,
    pub servers: Seq<char>,
    pub stage: DnsStage,
}

impl View for DnsChange {
    type V = DnsChangeView;

    closed spec fn view(&self) -> DnsChangeView {
        DnsChangeView { profile: self.profile@, servers: self.servers@, stage: self.stage }
    }
}

/// Whether NetworkManager should ignore the DHCP-provided servers.
pub open spec fn ignore_auto_dns(servers: Seq<char>) -> Seq<char> {
    if servers.len() == 0 {
        "no"@
    } else {
        "yes"@
    }
}

/// How a DNS change starts.
pub open spec fn dns_start(profile: Seq<char>, servers: Seq<char>) -> (DnsChangeView, StepView) {
    if profile.len() == 0 {
        (
            DnsChangeView { profile, servers, stage: DnsStage::Finished },
            StepView::Done(Err("No active connection profile"@)),
        )
    } else {
        (
            DnsChangeView { profile, servers, stage: DnsStage::Servers },
            StepView::Run(dns_modify_args(profile, "ipv4.dns"@, servers)),
        )
    }
}

/// How a DNS change goes on after `reply`.
pub open spec fn dns_next(m: DnsChangeView, reply: Option<Seq<char>>) -> (DnsChangeView, StepView) {
    let done = DnsChangeView { stage: DnsStage::Finished, ..m };
    match m.stage {
        DnsStage::Servers => if reply is None {
            (done, StepView::Done(Err("Could not set DNS"@)))
        } else {
            (
                DnsChangeView { stage: DnsStage::IgnoreAuto, ..m },
                StepView::Run(
                    dns_modify_args(m.profile, "ipv4.ignore-auto-dns"@, ignore_auto_dns(m.servers)),
                ),
            )
        },
        DnsStage::IgnoreAuto => if reply is None {
            (done, StepView::Done(Err("Could not set DNS"@)))
        } else {
            (DnsChangeView { stage: DnsStage::Activate, ..m }, StepView::Run(up_args(m.profile)))
        },
        _ => if reply is Some {
            (done, StepView::Done(Ok(())))
        } else {
            (done, StepView::Done(Err("Could not reapply the connection"@)))
        },
    }
}

/// Starts pointing `profile` at `servers` ("" hands DNS back to DHCP).
pub fn set_dns(profile: &str, servers: &str) -> (r: (DnsChange, NmStep))
    ensures
        (r.0@, r.1@) == dns_start(profile@, servers@),
{
    let mut m = DnsChange {
        profile: String::from_str(profile),
        servers: String::from_str(servers),
        stage: DnsStage::Finished,
    };
    if profile.unicode_len() == 0 {
        return (m, NmStep::Done(Err(String::from_str("No active connection profile"))));
    }
    m.stage = DnsStage::Servers;
    let args = dns_modify_cmd(&m.profile, "ipv4.dns", servers);
    (m, NmStep::Run(args))
}

impl DnsChange {
    pub open spec fn finished(&self) -> bool {
        self@.stage == DnsStage::Finished
    }

    /// Takes the reply to the last `Run` step and says what to do next.
    pub fn advance(&mut self, reply: Option<String>) -> (step: NmStep)
        requires
            !old(self).finished(),
        ensures
            (final(self)@, step@) == dns_next(old(self)@, opt_string(reply)),
    {
        match self.stage {
            DnsStage::Servers => {
                if reply.is_none() {
                    self.stage = DnsStage::Finished;
                    NmStep::Done(Err(String::from_str("Could not set DNS")))
                } else {
                    self.stage = DnsStage::IgnoreAuto;
                    let flag = if self.servers.as_str().unicode_len() == 0 {
                        "no"
                    } else {
                        "yes"
                    };
                    NmStep::Run(dns_modify_cmd(&self.profile, "ipv4.ignore-auto-dns", flag))
                }
            },
            DnsStage::IgnoreAuto => {
                if reply.is_none() {
                    self.stage = DnsStage::Finished;
                    NmStep::Done(Err(String::from_str("Could not set DNS")))
                } else {
                    self.stage = DnsStage::Activate;
                    NmStep::Run(up_cmd(&self.profile))
                }
            },
            _ => {
                self.stage = DnsStage::Finished;
                if reply.is_some() {
                    NmStep::Done(Ok(()))
                } else {
                    NmStep::Done(Err(String::from_str("Could not reapply the connection")))
                }
            },
        }
    }
}

/// How many replies a DNS change can still take at most.
pub open spec fn dns_steps_left(stage: DnsStage) -> nat {
    match stage {
        DnsStage::Servers => 3,
        DnsStage::IgnoreAuto => 2,
        DnsStage::Activate => 1,
        DnsStage::Finished => 0,
    }
}

/// A DNS change that asks for an nmcli call is never finished, and every
/// reply brings its end closer: no change takes more than three.
pub proof fn law_dns_change_ends(profile: Seq<char>, servers: Seq<char>, m: DnsChangeView, reply: Option<Seq<char>>)
    requires
        m.stage != DnsStage::Finished,
    ensures
        dns_start(profile, servers).1 is Run <==> dns_start(profile, servers).0.stage != DnsStage::Finished,
        dns_next(m, reply).1 is Run <==> dns_next(m, reply).0.stage != DnsStage::Finished,
        dns_steps_left(dns_next(m, reply).0.stage) < dns_steps_left(m.stage),
{
}

/// A DNS change writes the servers, then whether to ignore DHCP's servers,
/// then reactivates the profile, and succeeds exactly when all three calls do.
pub proof fn law_dns_change_sequence(
    profile: Seq<char>,
    servers: Seq<char>,
    r1: Option<Seq<char>>,
    r2: Option<Seq<char>>,
    r3: Option<Seq<char>>,
)
    requires
        profile.len() > 0,
    ensures
        ({
            let (m0, s0) = dns_start(profile, servers);
            let (m1, s1) = dns_next(m0, r1);
            let (m2, s2) = dns_next(m1, r2);
            let (m3, s3) = dns_next(m2, r3);
            &&& s0 == StepView::Run(dns_modify_args(profile, "ipv4.dns"@, servers))
            &&& r1 is Some ==> s1 == StepView::Run(
                dns_modify_args(profile, "ipv4.ignore-auto-dns"@, ignore_auto_dns(servers)),
            )
            &&& r1 is Some && r2 is Some ==> s2 == StepView::Run(up_args(profile))
            &&& r1 is Some && r2 is Some ==> (s3 == StepView::Done(Ok(())) <==> r3 is Some)
        }),
{
}

} // verus!
