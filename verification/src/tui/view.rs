//! The texts that the console shows. Where they stand and which colours they have
//! is left to the drawing.

use super::app::{label_of, link_address, verb_of, App, AppModel, Mode, Tab, SERVICE_MENU, SERVICE_MENU_LEN};
use super::format::{bytes, bytes_text, duration, duration_text};
use crate::config::{needs_listen, LinkConfig, LinkModel};
use crate::stats::{mode_str, mode_word, snapshot_models, LinkSnapshot, LinkSnapshotModel, StatusModel, StatusSnapshot};
use crate::text::{dec, dec_text, lemma_push_text};
use vstd::prelude::*;
use vstd::utf8::encode_utf8;

verus! {

// ---------------------------------------------------------------------
// Input and footer
// ---------------------------------------------------------------------

/// The title of the input line; none where there is no input line.
pub open spec fn input_label_of(a: AppModel) -> Option<Seq<char>> {
    match a.mode {
        Mode::AddLinkId => Some("link id"@),
        Mode::AddLinkMode => Some("mode — press f (forward) or r (reverse)"@),
        Mode::AddLinkAddress => Some(
            match a.pending_link_mode {
                Some(mode) => if needs_listen(a.config.role, mode) {
                    "listen address (host:port)"@
                } else {
                    "target address (host:port)"@
                },
                None => "address"@,
            },
        ),
        _ => None,
    }
}

/// The title of the input line; none where there is no input line.
pub fn input_label(app: &App) -> (r: Option<&'static str>)
    ensures
        input_label_of(app@) == (match r {
            Some(s) => Some(s@),
            None => None,
        }),
{
    match app.mode {
        Mode::AddLinkId => Some("link id"),
        Mode::AddLinkMode => Some("mode — press f (forward) or r (reverse)"),
        Mode::AddLinkAddress => Some(
            match app.pending_link_needs_listen() {
                Some(true) => "listen address (host:port)",
                Some(false) => "target address (host:port)",
                None => "address",
            },
        ),
        _ => None,
    }
}

/// What stands in the input line: what has been typed, with a cursor.
pub fn input_text(app: &App) -> (s: String)
    ensures
        s@ == (if app@.mode == Mode::AddLinkMode {
            Seq::empty()
        } else {
            app@.input_buffer + "_"@
        }),
{
    if app.mode == Mode::AddLinkMode {
        return String::new();
    }
    let mut s = app.input_buffer.clone();
    s.push_str("_");
    s
}

/// The last line: the message, if there is one, and otherwise the keys.
pub open spec fn footer_of(a: AppModel) -> Seq<char> {
    match a.message {
        Some(m) => m,
        None => match a.mode {
            Mode::AddLinkId => "enter confirm  esc cancel"@,
            Mode::AddLinkAddress => "enter confirm  esc cancel"@,
            Mode::AddLinkMode => "f forward   r reverse   esc cancel"@,
            Mode::ConfirmRemoveLink => "remove this link? y/n"@,
            Mode::Normal => match a.tab {
                Tab::Status => "tab/1-3 switch  q quit"@,
                Tab::Links => "j/k move  a add  d delete  s save  tab/1-3 switch  q quit"@,
                Tab::Service => "j/k move  enter select  tab/1-3 switch  q quit"@,
            },
            Mode::ChooseTemplate => ""@,
            Mode::ConfirmServiceAction => ""@,
        },
    }
}

/// The last line.
pub fn footer(app: &App) -> (s: String)
    ensures
        s@ == footer_of(app@),
{
    if let Some(m) = &app.message {
        return m.clone();
    }
    let text = match app.mode {
        Mode::AddLinkId => "enter confirm  esc cancel",
        Mode::AddLinkAddress => "enter confirm  esc cancel",
        Mode::AddLinkMode => "f forward   r reverse   esc cancel",
        Mode::ConfirmRemoveLink => "remove this link? y/n",
        Mode::Normal => match app.tab {
            Tab::Status => "tab/1-3 switch  q quit",
            Tab::Links => "j/k move  a add  d delete  s save  tab/1-3 switch  q quit",
            Tab::Service => "j/k move  enter select  tab/1-3 switch  q quit",
        },
        Mode::ChooseTemplate => "",
        Mode::ConfirmServiceAction => "",
    };
    text.to_string()
}

// ---------------------------------------------------------------------
// The status tab
// ---------------------------------------------------------------------

/// What is said of a daemon that does not answer.
pub open spec fn unreachable_text(a: AppModel) -> Seq<char> {
    "daemon not reachable: "@ + (match a.status_error {
        Some(e) => e,
        None => "no data yet"@,
    })
}

/// What is said of a daemon that does not answer.
pub fn unreachable_line(app: &App) -> (s: String)
    ensures
        s@ == unreachable_text(app@),
{
    let mut s = "daemon not reachable: ".to_string();
    match &app.status_error {
        Some(e) => s.push_str(e.as_str()),
        None => s.push_str("no data yet"),
    }
    s
}

/// Who is at the other end of the control channel and for how long, where both are
/// known.
pub open spec fn peer_text(s: StatusModel) -> Option<Seq<char>> {
    match (s.control_peer_addr, s.control_connected_since_secs_ago) {
        (Some(addr), Some(since)) => Some(
            "  ("@ + addr + ", "@ + duration_text(since as nat) + " ago)"@,
        ),
        _ => None,
    }
}

/// Who is at the other end of the control channel and for how long.
pub fn peer_line(snap: &StatusSnapshot) -> (r: Option<String>)
    ensures
        r.deep_view() == peer_text(snap@),
{
    match (&snap.control_peer_addr, snap.control_connected_since_secs_ago) {
        (Some(addr), Some(since)) => {
            let d = duration(since);
            let mut s = "  (".to_string();
            s.push_str(addr.as_str());
            s.push_str(", ");
            s.push_str(d.as_str());
            s.push_str(" ago)");
            Some(s)
        },
        _ => None,
    }
}

/// The cells of a link on the status tab: its name, its mode, its streams, and what
/// it has carried, in readable units.
pub open spec fn status_cells(link: LinkSnapshotModel) -> Seq<Seq<char>> {
    seq![
        link.id,
        link.mode,
        dec(link.stats.active_streams as nat),
        dec(link.stats.total_streams as nat),
        bytes_text(link.stats.bytes_forward as nat),
        bytes_text(link.stats.bytes_back as nat),
    ]
}

/// The cells of a link on the status tab.
pub fn status_row(link: &LinkSnapshot) -> (cells: Vec<String>)
    ensures
        cells.deep_view() == status_cells(link@),
{
    let mut cells: Vec<String> = Vec::new();
    cells.push(link.id.clone());
    cells.push(link.mode.clone());
    cells.push(dec_text(link.active_streams));
    cells.push(dec_text(link.total_streams));
    cells.push(bytes(link.bytes_forward));
    cells.push(bytes(link.bytes_back));
    assert(cells.deep_view() =~= status_cells(link@));
    cells
}

/// A counter of a link.
pub open spec fn column_of(link: LinkSnapshotModel, column: int) -> u64 {
    if column == 0 {
        link.stats.active_streams
    } else if column == 1 {
        link.stats.total_streams
    } else if column == 2 {
        link.stats.bytes_forward
    } else {
        link.stats.bytes_back
    }
}

/// The sum of a counter over all links.
pub open spec fn column_sum(links: Seq<LinkSnapshotModel>, column: int) -> nat
    decreases links.len(),
{
    if links.len() == 0 {
        0
    } else {
        column_sum(links.drop_last(), column) + column_of(links.last(), column) as nat
    }
}

/// A sum that is shown: the largest number where it is larger.
pub open spec fn capped(n: nat) -> nat {
    if n <= u64::MAX {
        n
    } else {
        u64::MAX as nat
    }
}

/// The cells of the row that sums every column over all links.
pub open spec fn total_cells(links: Seq<LinkSnapshotModel>) -> Seq<Seq<char>> {
    seq![
        "TOTAL"@,
        ""@,
        dec(capped(column_sum(links, 0))),
        dec(capped(column_sum(links, 1))),
        bytes_text(capped(column_sum(links, 2))),
        bytes_text(capped(column_sum(links, 3))),
    ]
}

fn sum_column(links: &Vec<LinkSnapshot>, column: usize) -> (n: u64)
    requires
        column < 4,
    ensures
        n == capped(column_sum(snapshot_models(links@), column as int)),
{
    let ghost models = snapshot_models(links@);
    let mut n: u64 = 0;
    let mut i: usize = 0;
    assert(models.take(0) =~= Seq::<LinkSnapshotModel>::empty());
    while i < links.len()
        invariant
            i <= links@.len(),
            column < 4,
            models == snapshot_models(links@),
            n == capped(column_sum(models.take(i as int), column as int)),
        decreases links@.len() - i,
    {
        let link = &links[i];
        assert(models.take(i + 1).drop_last() =~= models.take(i as int));
        assert(models.take(i + 1).last() == link@);
        let v: u64 = if column == 0 {
            link.active_streams
        } else if column == 1 {
            link.total_streams
        } else if column == 2 {
            link.bytes_forward
        } else {
            link.bytes_back
        };
        n = match n.checked_add(v) {
            Some(sum) => sum,
            None => u64::MAX,
        };
        i = i + 1;
    }
    assert(models.take(i as int) =~= models);
    n
}

/// The cells of the row that sums every column over all links.
pub fn total_row(links: &Vec<LinkSnapshot>) -> (cells: Vec<String>)
    ensures
        cells.deep_view() == total_cells(snapshot_models(links@)),
{
    let mut cells: Vec<String> = Vec::new();
    cells.push("TOTAL".to_string());
    cells.push("".to_string());
    cells.push(dec_text(sum_column(links, 0)));
    cells.push(dec_text(sum_column(links, 1)));
    cells.push(bytes(sum_column(links, 2)));
    cells.push(bytes(sum_column(links, 3)));
    assert(cells.deep_view() =~= total_cells(snapshot_models(links@)));
    cells
}

// ---------------------------------------------------------------------
// The links tab
// ---------------------------------------------------------------------

/// The title of the links tab.
pub fn links_title(app: &App) -> (s: &'static str)
    ensures
        s@ == (if app@.dirty {
            " links (unsaved changes) "@
        } else {
            " links "@
        }),
{
    if app.dirty {
        " links (unsaved changes) "
    } else {
        " links "
    }
}

/// The cells of a link on the links tab: its name, its mode, which address it has,
/// and the address.
pub open spec fn link_cells(link: LinkModel) -> Seq<Seq<char>> {
    seq![
        link.id,
        mode_word(link.mode),
        if link.listen is Some {
            "listen"@
        } else {
            "target"@
        },
        link_address(link),
    ]
}

/// The cells of a link on the links tab.
pub fn link_row(link: &LinkConfig) -> (cells: Vec<String>)
    ensures
        cells.deep_view() == link_cells(link@),
{
    let mut cells: Vec<String> = Vec::new();
    cells.push(link.id.clone());
    cells.push(mode_str(link.mode).to_string());
    match &link.listen {
        Some(addr) => {
            cells.push("listen".to_string());
            cells.push(addr.clone());
        },
        None => {
            cells.push("target".to_string());
            match &link.target {
                Some(addr) => cells.push(addr.clone()),
                None => cells.push(String::new()),
            }
        },
    }
    assert(cells.deep_view() =~= link_cells(link@));
    cells
}

// ---------------------------------------------------------------------
// The service tab
// ---------------------------------------------------------------------

/// An answer about the service, or that there is none.
pub open spec fn answer_or_unknown(answer: Option<Seq<char>>) -> Seq<char> {
    match answer {
        Some(s) => s,
        None => "unknown"@,
    }
}

/// The lines of the service tab: whether it is active and whether it starts at
/// boot, and below them either the question that waits for an answer or the menu.
pub open spec fn service_texts(a: AppModel) -> Seq<Seq<char>> {
    let head = seq![
        "state: "@ + answer_or_unknown(a.service_state),
        "at boot: "@ + answer_or_unknown(a.enabled_state),
        ""@,
    ];
    if a.mode == Mode::ConfirmServiceAction {
        match a.pending_service_action {
            Some(action) => head.push(
                verb_of(action) + " ghostport.service? this needs sudo — y/n"@,
            ),
            None => head,
        }
    } else {
        head + menu_texts(a.service_menu_selected, SERVICE_MENU_LEN as nat)
    }
}

/// The first `n` entries of the menu, with a mark at the selected one.
pub open spec fn menu_texts(selected: nat, n: nat) -> Seq<Seq<char>>
    decreases n,
{
    if n == 0 {
        Seq::empty()
    } else {
        menu_texts(selected, (n - 1) as nat).push(
            (if selected == n - 1 {
                "> "@
            } else {
                "  "@
            }) + label_of(SERVICE_MENU@[n - 1]),
        )
    }
}

/// The lines of the service tab.
pub fn service_lines(app: &App) -> (lines: Vec<String>)
    ensures
        lines.deep_view() == service_texts(app@),
{
    let mut state = "state: ".to_string();
    match &app.service_state {
        Some(s) => state.push_str(s.as_str()),
        None => state.push_str("unknown"),
    }
    let mut boot = "at boot: ".to_string();
    match &app.enabled_state {
        Some(s) => boot.push_str(s.as_str()),
        None => boot.push_str("unknown"),
    }
    let ghost head = seq![state@, boot@, ""@];
    let mut lines: Vec<String> = Vec::new();
    lines.push(state);
    lines.push(boot);
    lines.push("".to_string());
    assert(lines.deep_view() =~= head);
    if app.mode == Mode::ConfirmServiceAction {
        if let Some(action) = app.pending_service_action {
            let mut q = action.systemctl_verb().to_string();
            q.push_str(" ghostport.service? this needs sudo — y/n");
            let ghost text = q@;
            lines.push(q);
            assert(lines.deep_view() =~= head.push(text));
        }
        return lines;
    }
    let menu = SERVICE_MENU;
    let ghost base = lines.deep_view();
    let mut i: usize = 0;
    assert(base + menu_texts(app@.service_menu_selected, 0) =~= base);
    while i < SERVICE_MENU_LEN
        invariant
            i <= SERVICE_MENU_LEN,
            menu == SERVICE_MENU,
            lines.deep_view() == base + menu_texts(app@.service_menu_selected, i as nat),
        decreases SERVICE_MENU_LEN - i,
    {
        let mut entry = if app.service_menu_selected == i {
            "> ".to_string()
        } else {
            "  ".to_string()
        };
        entry.push_str(menu[i].label());
        let ghost before = lines;
        lines.push(entry);
        proof {
            lemma_push_text(before, lines, entry);
            assert(lines.deep_view() =~= base + menu_texts(
                app@.service_menu_selected,
                (i + 1) as nat,
            ));
        }
        i = i + 1;
    }
    lines
}

// ---------------------------------------------------------------------
// Colours
// ---------------------------------------------------------------------

/// The value of the hexadecimal digit `b`, as a byte of text.
pub open spec fn hex_byte_value(b: u8) -> Option<u8> {
    if 48 <= b <= 57 {
        Some((b - 48) as u8)
    } else if 97 <= b <= 102 {
        Some((b - 87) as u8)
    } else if 65 <= b <= 70 {
        Some((b - 55) as u8)
    } else {
        None
    }
}

/// How many number signs a text starts with.
pub open spec fn leading_signs(s: Seq<u8>) -> int
    decreases s.len(),
{
    if s.len() > 0 && s[0] == 35 {
        1 + leading_signs(s.drop_first())
    } else {
        0
    }
}

/// The part of a colour that two characters at `i` give; full where there are no
/// two characters, or they are not a number.
pub open spec fn colour_part(s: Seq<u8>, i: int) -> u8 {
    if i + 2 > s.len() {
        255
    } else {
        match (hex_byte_value(s[i]), hex_byte_value(s[i + 1])) {
            (Some(h), Some(l)) => (16 * h + l) as u8,
            (None, Some(l)) => if s[i] == 43 {
                l
            } else {
                255
            },
            _ => 255,
        }
    }
}

/// The colour that a text such as `#ff3b52` stands for.
pub open spec fn colour_of(s: Seq<u8>) -> (u8, u8, u8) {
    let t = s.skip(leading_signs(s));
    (colour_part(t, 0), colour_part(t, 2), colour_part(t, 4))
}

fn hex_byte(b: u8) -> (r: Option<u8>)
    ensures
        r == hex_byte_value(b),
        r matches Some(v) ==> v < 16,
{
    if 48 <= b && b <= 57 {
        Some(b - 48)
    } else if 97 <= b && b <= 102 {
        Some(b - 87)
    } else if 65 <= b && b <= 70 {
        Some(b - 55)
    } else {
        None
    }
}

fn part_at(s: &[u8], start: usize, i: usize) -> (r: u8)
    requires
        start <= s@.len(),
        i <= 4,
    ensures
        r == colour_part(s@.skip(start as int), i as int),
{
    if s.len() - start < i + 2 {
        return 255;
    }
    let a = s[start + i];
    let b = s[start + i + 1];
    assert(s@.skip(start as int)[i as int] == a && s@.skip(start as int)[i + 1] == b);
    match (hex_byte(a), hex_byte(b)) {
        (Some(h), Some(l)) => 16 * h + l,
        (None, Some(l)) => if a == 43 {
            l
        } else {
            255
        },
        _ => 255,
    }
}

/// The colour that a text such as `#ff3b52` stands for.
pub fn hex_to_rgb(hex: &str) -> (c: (u8, u8, u8))
    ensures
        c == colour_of(encode_utf8(hex@)),
{
    let s = hex.as_bytes();
    let mut start: usize = 0;
    assert(s@.skip(0) =~= s@);
    while start < s.len() && s[start] == 35
        invariant
            start <= s@.len(),
            leading_signs(s@) == start + leading_signs(s@.skip(start as int)),
        decreases s@.len() - start,
    {
        assert(s@.skip(start as int)[0] == 35);
        assert(s@.skip(start as int).drop_first() =~= s@.skip(start + 1));
        start = start + 1;
    }
    proof {
        if start < s@.len() {
            assert(s@.skip(start as int)[0] == s@[start as int]);
        }
        assert(leading_signs(s@) == start);
    }
    (part_at(s, start, 0), part_at(s, start, 2), part_at(s, start, 4))
}

/// The row of a link shows its own name, mode, streams and bytes, those that went
/// forward before those that came back.
pub proof fn law_status_row_shows_the_link(l: LinkSnapshotModel)
    ensures
        status_cells(l).len() == 6,
        status_cells(l)[0] == l.id,
        status_cells(l)[1] == l.mode,
        status_cells(l)[2] == dec(l.stats.active_streams as nat),
        status_cells(l)[3] == dec(l.stats.total_streams as nat),
        status_cells(l)[4] == bytes_text(l.stats.bytes_forward as nat),
        status_cells(l)[5] == bytes_text(l.stats.bytes_back as nat),
{
}

/// The last row sums each column over all links: with one more link every sum grows by
/// that link's own counter.
pub proof fn law_total_row_sums_the_columns(links: Seq<LinkSnapshotModel>, l: LinkSnapshotModel)
    ensures
        forall|k: int| #[trigger] column_sum(Seq::empty(), k) == 0,
        column_sum(links.push(l), 0) == column_sum(links, 0) + l.stats.active_streams,
        column_sum(links.push(l), 1) == column_sum(links, 1) + l.stats.total_streams,
        column_sum(links.push(l), 2) == column_sum(links, 2) + l.stats.bytes_forward,
        column_sum(links.push(l), 3) == column_sum(links, 3) + l.stats.bytes_back,
        column_sum(links, 0) <= u64::MAX ==> total_cells(links)[2] == dec(column_sum(links, 0)),
        column_sum(links, 1) <= u64::MAX ==> total_cells(links)[3] == dec(column_sum(links, 1)),
        column_sum(links, 2) <= u64::MAX ==> total_cells(links)[4] == bytes_text(
            column_sum(links, 2),
        ),
        column_sum(links, 3) <= u64::MAX ==> total_cells(links)[5] == bytes_text(
            column_sum(links, 3),
        ),
        total_cells(links)[0] == "TOTAL"@,
        total_cells(links).len() == 6,
{
    assert(links.push(l).drop_last() =~= links);
}

/// The row of a configured link shows its name, its mode, which address it has, and the
/// address.
pub proof fn law_link_row_shows_the_link(l: LinkModel)
    ensures
        link_cells(l).len() == 4,
        link_cells(l)[0] == l.id,
        link_cells(l)[1] == (if l.mode is Forward {
            "forward"@
        } else {
            "reverse"@
        }),
        l.listen is Some ==> link_cells(l)[2] == "listen"@ && link_cells(l)[3] == l.listen->0,
        l.listen is None ==> link_cells(l)[2] == "target"@,
        l.listen is None && l.target is Some ==> link_cells(l)[3] == l.target->0,
{
}

/// The input asks for what is entered: for a listening address where this side accepts
/// the connections of the link, and for a target where it dials.
pub proof fn law_input_asks_for_what_is_entered(a: AppModel)
    ensures
        a.mode == Mode::AddLinkId ==> input_label_of(a) == Some("link id"@),
        a.mode == Mode::AddLinkMode ==> input_label_of(a) == Some(
            "mode — press f (forward) or r (reverse)"@,
        ),
        a.mode == Mode::AddLinkAddress && a.pending_link_mode is Some ==> input_label_of(a) == Some(
            if (a.config.role is Client && a.pending_link_mode->0 is Forward) || (a.config.role
                is Server && a.pending_link_mode->0 is Reverse) {
                "listen address (host:port)"@
            } else {
                "target address (host:port)"@
            },
        ),
        a.mode == Mode::Normal ==> input_label_of(a) is None,
{
}

/// A message is shown in place of the help, and so is the error of a daemon that does
/// not answer.
pub proof fn law_messages_are_shown(a: AppModel, s: StatusModel)
    ensures
        a.message matches Some(m) ==> footer_of(a) == m,
        a.status_error matches Some(e) ==> unreachable_text(a) == "daemon not reachable: "@ + e,
        peer_text(s) is Some <==> s.control_peer_addr is Some && s.control_connected_since_secs_ago
            is Some,
        peer_text(s) matches Some(t) ==> t == "  ("@ + s.control_peer_addr->0 + ", "@ + duration_text(
            s.control_connected_since_secs_ago->0 as nat,
        ) + " ago)"@,
{
}

proof fn lemma_menu_lines(selected: nat, n: nat)
    requires
        n <= SERVICE_MENU_LEN,
    ensures
        menu_texts(selected, n).len() == n,
        forall|i: int|
            0 <= i < n ==> #[trigger] menu_texts(selected, n)[i] == (if i == selected {
                "> "@
            } else {
                "  "@
            }) + label_of(SERVICE_MENU@[i]),
    decreases n,
{
    if n > 0 {
        lemma_menu_lines(selected, (n - 1) as nat);
        let before = menu_texts(selected, (n - 1) as nat);
        assert(forall|i: int| 0 <= i < n - 1 ==> menu_texts(selected, n)[i] == #[trigger] before[i]);
    }
}

/// The tab of the service shows what the system says of it, and below that every entry
/// of the menu with a mark at the selected one, or the question that waits.
pub proof fn law_service_tab_shows_the_menu(a: AppModel, i: int)
    ensures
        ({
            let lines = service_texts(a);
            &&& lines[0] == "state: "@ + (if a.service_state is Some {
                a.service_state->0
            } else {
                "unknown"@
            })
            &&& lines[1] == "at boot: "@ + (if a.enabled_state is Some {
                a.enabled_state->0
            } else {
                "unknown"@
            })
            &&& a.mode != Mode::ConfirmServiceAction ==> lines.len() == 10
            &&& a.mode != Mode::ConfirmServiceAction && 0 <= i < 7 ==> lines[3 + i] == (if i
                == a.service_menu_selected {
                "> "@
            } else {
                "  "@
            }) + label_of(SERVICE_MENU@[i])
            &&& a.mode == Mode::ConfirmServiceAction && a.pending_service_action is Some ==> {
                &&& lines.len() == 4
                &&& lines[3] == verb_of(a.pending_service_action->0)
                    + " ghostport.service? this needs sudo — y/n"@
            }
        }),
{
    lemma_menu_lines(a.service_menu_selected, SERVICE_MENU_LEN as nat);
    if a.mode != Mode::ConfirmServiceAction && 0 <= i < 7 {
        let menu = menu_texts(a.service_menu_selected, SERVICE_MENU_LEN as nat);
        assert(service_texts(a)[3 + i] == menu[i]);
    }
}

/// A colour that is written as a number sign and six hexadecimal digits is made of the
/// three numbers that they form, two by two.
pub proof fn law_colours_are_read_two_digits_each(s: Seq<u8>)
    requires
        s.len() == 6,
        forall|i: int| 0 <= i < 6 ==> hex_byte_value(#[trigger] s[i]) is Some,
    ensures
        colour_of(seq![35u8] + s) == colour_of(s),
        colour_of(s).0 == 16 * hex_byte_value(s[0])->0 + hex_byte_value(s[1])->0,
        colour_of(s).1 == 16 * hex_byte_value(s[2])->0 + hex_byte_value(s[3])->0,
        colour_of(s).2 == 16 * hex_byte_value(s[4])->0 + hex_byte_value(s[5])->0,
        forall|b: u8|
            hex_byte_value(b) == (if '0' as u8 <= b <= '9' as u8 {
                Some((b - '0' as u8) as u8)
            } else if 'a' as u8 <= b <= 'f' as u8 {
                Some((b - 'a' as u8 + 10) as u8)
            } else if 'A' as u8 <= b <= 'F' as u8 {
                Some((b - 'A' as u8 + 10) as u8)
            } else {
                None
            }),
{
    assert(hex_byte_value(s[0]) is Some && hex_byte_value(s[1]) is Some && hex_byte_value(s[2])
        is Some && hex_byte_value(s[3]) is Some && hex_byte_value(s[4]) is Some && hex_byte_value(
        s[5],
    ) is Some);
    let t = seq![35u8] + s;
    reveal_with_fuel(leading_signs, 3);
    assert(t.drop_first() =~= s);
    assert(leading_signs(s) == 0);
    assert(leading_signs(t) == 1);
    assert(t.skip(1) =~= s);
    assert(s.skip(0) =~= s);
}

/// While no message is shown, the last line tells the keys of what is going on.
pub proof fn law_last_line_tells_the_keys(a: AppModel)
    requires
        a.message is None,
    ensures
        a.mode == Mode::AddLinkId || a.mode == Mode::AddLinkAddress ==> footer_of(a)
            == "enter confirm  esc cancel"@,
        a.mode == Mode::AddLinkMode ==> footer_of(a) == "f forward   r reverse   esc cancel"@,
        a.mode == Mode::ConfirmRemoveLink ==> footer_of(a) == "remove this link? y/n"@,
        a.mode == Mode::ChooseTemplate || a.mode == Mode::ConfirmServiceAction ==> footer_of(a)
            == ""@,
        a.mode == Mode::Normal && a.tab == Tab::Status ==> footer_of(a) == "tab/1-3 switch  q quit"@,
        a.mode == Mode::Normal && a.tab == Tab::Links ==> footer_of(a)
            == "j/k move  a add  d delete  s save  tab/1-3 switch  q quit"@,
        a.mode == Mode::Normal && a.tab == Tab::Service ==> footer_of(a)
            == "j/k move  enter select  tab/1-3 switch  q quit"@,
        a.status_error is None ==> unreachable_text(a) == "daemon not reachable: no data yet"@,
{
    reveal_strlit("daemon not reachable: ");
    reveal_strlit("no data yet");
    reveal_strlit("daemon not reachable: no data yet");
    assert(a.status_error is None ==> unreachable_text(a)
        =~= "daemon not reachable: no data yet"@);
}

/// A part of a colour that is not there, or is no number, is full.
pub proof fn law_missing_parts_of_a_colour_are_full(s: Seq<u8>, i: int)
    requires
        0 <= i,
    ensures
        i + 2 > s.len() ==> colour_part(s, i) == 255,
        i + 2 <= s.len() && hex_byte_value(s[i + 1]) is None ==> colour_part(s, i) == 255,
        i + 2 <= s.len() && hex_byte_value(s[i]) is None && s[i] != 43 ==> colour_part(s, i) == 255,
        colour_of(s) == colour_of(seq![35u8] + s),
{
    let t = seq![35u8] + s;
    assert(t.drop_first() =~= s);
    assert(leading_signs(t) == 1 + leading_signs(s));
    lemma_signs(s);
    assert(t.skip(1 + leading_signs(s)) =~= s.skip(leading_signs(s)));
}

proof fn lemma_signs(s: Seq<u8>)
    ensures
        0 <= leading_signs(s) <= s.len(),
    decreases s.len(),
{
    if s.len() > 0 && s[0] == 35 {
        lemma_signs(s.drop_first());
    }
}

/// A sum that is too large to be shown is shown as the largest number.
pub proof fn law_large_sums_are_capped(links: Seq<LinkSnapshotModel>)
    ensures
        column_sum(links, 0) > u64::MAX ==> total_cells(links)[2] == dec(u64::MAX as nat),
        column_sum(links, 1) > u64::MAX ==> total_cells(links)[3] == dec(u64::MAX as nat),
        column_sum(links, 2) > u64::MAX ==> total_cells(links)[4] == bytes_text(u64::MAX as nat),
        column_sum(links, 3) > u64::MAX ==> total_cells(links)[5] == bytes_text(u64::MAX as nat),
{
}

} // verus!
