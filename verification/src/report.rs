use vstd::prelude::*;

use crate::dp_info::DpInfo;
use crate::drm_info::{views, ConnectorInfo};
use crate::edid::{edid_of, is_edid, parse_edid, EdidInfo, EdidView};
use crate::gpu::GpuInfo;
use crate::path::{
    components_lt, lemma_parts_irreflexive, lemma_parts_total, lemma_parts_transitive, parts_lt,
    parts_view, path_components, path_parts, same_components, PathComponent, PathPart,
};
use crate::text::{
    chars_eq, chars_of, decimal, digit_char, hex4, push_decimal, push_hex4, push_str, string_of,
};

verus! {

/// Whether `t` tenths of an inch is the screen diagonal of a `w` x `h` cm screen
/// rounded to the nearest tenth: `|t - 10 * sqrt(w*w + h*h) / 2.54| < 1/2`,
/// squared out so that it stays in integers. (No such diagonal lies exactly
/// half way between two tenths.)
pub open spec fn diagonal_rounds_to(w: int, h: int, t: int) -> bool {
    let s = 1_000_000 * (w * w + h * h);
    &&& t >= 0
    &&& t == 0 || (254 * t - 127) * (254 * t - 127) <= s
    &&& (254 * t + 127) * (254 * t + 127) > s
}

fn square_at_most(a: u64, s: u64) -> (r: bool)
    requires
        a <= 1_000_000,
    ensures
        r == (a * a <= s),
{
    assert(a * a <= 1_000_000 * 1_000_000) by (nonlinear_arith)
        requires
            a <= 1_000_000,
    ;
    a * a <= s
}

/// The diagonal of a `w` x `h` cm screen in tenths of an inch, rounded to the
/// nearest tenth.
pub fn diagonal_tenths(w: u8, h: u8) -> (t: u32)
    ensures
        diagonal_rounds_to(w as int, h as int, t as int),
        t <= 1500,
{
    let w64 = w as u64;
    let h64 = h as u64;
    assert(w64 * w64 <= 255 * 255 && h64 * h64 <= 255 * 255) by (nonlinear_arith)
        requires
            w64 <= 255,
            h64 <= 255,
    ;
    let s: u64 = 1_000_000 * (w64 * w64 + h64 * h64);
    let mut t: u64 = 0;
    while t < 1500 && square_at_most(254 * t + 127, s)
        invariant
            t <= 1500,
            s == 1_000_000 * (w * w + h * h),
            s <= 1_000_000 * (2 * 255 * 255),
            t == 0 || (254 * t - 127) * (254 * t - 127) <= s,
        decreases 1500 - t,
    {
        t = t + 1;
    }
    assert(t < 1500) by (nonlinear_arith)
        requires
            t <= 1500,
            t == 0 || (254 * t - 127) * (254 * t - 127) <= s,
            s <= 1_000_000 * (2 * 255 * 255),
    ;
    t as u32
}

} // verus!

verus! {

/// No two tenths are both the rounded diagonal.
pub proof fn lemma_diagonal_unique(w: int, h: int, t1: int, t2: int)
    requires
        diagonal_rounds_to(w, h, t1),
        diagonal_rounds_to(w, h, t2),
    ensures
        t1 == t2,
{
    let s = 1_000_000 * (w * w + h * h);
    if t1 < t2 {
        assert(false) by (nonlinear_arith)
            requires
                0 <= t1 < t2,
                (254 * t1 + 127) * (254 * t1 + 127) > s,
                (254 * t2 - 127) * (254 * t2 - 127) <= s,
        ;
    } else if t2 < t1 {
        assert(false) by (nonlinear_arith)
            requires
                0 <= t2 < t1,
                (254 * t2 + 127) * (254 * t2 + 127) > s,
                (254 * t1 - 127) * (254 * t1 - 127) <= s,
        ;
    }
}

/// The rounded diagonal, in tenths of an inch, of a `w` x `h` cm screen.
pub open spec fn diagonal(w: int, h: int) -> int {
    choose|t: int| diagonal_rounds_to(w, h, t)
}

/// `w`cm x `h`cm and the diagonal in inches with one decimal.
pub open spec fn size_text(w: int, h: int) -> Seq<char> {
    let t = diagonal(w, h);
    decimal(w as nat) + "cm x "@ + decimal(h as nat) + "cm ("@ + decimal((t / 10) as nat)
        + seq!['.', digit_char((t % 10) as nat), '"', ')']
}

/// One labelled line of connector details.
pub struct DetailRow {
    pub label: String,
    pub value: String,
}

impl View for DetailRow {
    type V = (Seq<char>, Seq<char>);

    open spec fn view(&self) -> (Seq<char>, Seq<char>) {
        (self.label@, self.value@)
    }
}

/// The rows of a sequence of detail rows.
pub open spec fn row_views(v: Seq<DetailRow>) -> Seq<(Seq<char>, Seq<char>)> {
    v.map_values(|r: DetailRow| r@)
}

/// The items joined with `sep` between each two.
pub open spec fn join(items: Seq<Seq<char>>, sep: Seq<char>) -> Seq<char>
    decreases items.len(),
{
    if items.len() == 0 {
        Seq::empty()
    } else if items.len() == 1 {
        items[0]
    } else {
        join(items.drop_last(), sep) + sep + items.last()
    }
}

/// `Display` row: manufacturer and model name, or manufacturer and product code.
pub open spec fn display_value(e: EdidView) -> Seq<char> {
    match e.display_name {
        Some(n) => e.manufacturer + " "@ + n,
        None => e.manufacturer + " (product "@ + hex4(e.product_code as nat) + ")"@,
    }
}

/// `Color` row: bits per colour, or that it is unknown.
pub open spec fn color_value(depth: Option<u8>) -> Seq<char> {
    let depth_text = match depth {
        Some(b) => decimal(b as nat) + "-bit"@,
        None => "unknown depth"@,
    };
    depth_text + ", digital"@
}

/// `EDID` row: version and date of manufacture.
pub open spec fn edid_value(e: EdidView) -> Seq<char> {
    "v"@ + e.version + ", year "@ + decimal(e.year as nat) + ", week "@ + decimal(e.week as nat)
}

/// The rows that describe a display's EDID. The terminal report names a display
/// without a model name by its product code; the window leaves that row out.
pub open spec fn edid_rows(e: EdidView, terminal: bool) -> Seq<(Seq<char>, Seq<char>)> {
    let display = if e.display_name is Some || terminal {
        seq![("Display"@, display_value(e))]
    } else {
        Seq::empty()
    };
    let native = match (e.max_width, e.max_height) {
        (Some(w), Some(h)) => seq![("Native"@, decimal(w as nat) + "x"@ + decimal(h as nat))],
        _ => Seq::empty(),
    };
    let color = if e.digital {
        seq![("Color"@, color_value(e.bit_depth))]
    } else {
        Seq::empty()
    };
    let size = if e.width_cm > 0 && e.height_cm > 0 {
        seq![("Size"@, size_text(e.width_cm as int, e.height_cm as int))]
    } else {
        Seq::empty()
    };
    display + native + color + size + seq![("EDID"@, edid_value(e))]
}

} // verus!

verus! {

/// The size text of a `w` x `h` cm screen: `29cm x 19cm (13.6")`.
pub fn size_value(w: u8, h: u8) -> (s: String)
    ensures
        s@ == size_text(w as int, h as int),
{
    let t = diagonal_tenths(w, h);
    proof {
        lemma_diagonal_unique(w as int, h as int, t as int, diagonal(w as int, h as int));
    }
    let mut v: Vec<char> = Vec::new();
    push_decimal(&mut v, w as u64);
    push_str(&mut v, "cm x ");
    push_decimal(&mut v, h as u64);
    push_str(&mut v, "cm (");
    push_decimal(&mut v, (t / 10) as u64);
    v.push('.');
    v.push((48u8 + (t % 10) as u8) as char);
    v.push('"');
    v.push(')');
    string_of(v.as_slice())
}

proof fn lemma_row_views_push(v: Seq<DetailRow>, r: DetailRow)
    ensures
        row_views(v.push(r)) == row_views(v).push(r@),
{
    assert(row_views(v.push(r)) =~= row_views(v).push(r@));
}

fn make_row(label: &str, value: &[char]) -> (r: DetailRow)
    ensures
        r@ == (label@, value@),
{
    DetailRow { label: String::from_str(label), value: string_of(value) }
}

/// The rows that describe a display's EDID, in the order the report shows them.
pub fn edid_detail_rows(e: &EdidInfo, terminal: bool) -> (rows: Vec<DetailRow>)
    ensures
        row_views(rows@) == edid_rows(e@, terminal),
{
    let mut rows: Vec<DetailRow> = Vec::new();
    let ghost ev = e@;

    let mut display: Vec<char> = Vec::new();
    push_str(&mut display, e.manufacturer.as_str());
    match &e.display_name {
        Some(n) => {
            push_str(&mut display, " ");
            push_str(&mut display, n.as_str());
            push_row(&mut rows, "Display", display.as_slice());
        },
        None => {
            if terminal {
                push_str(&mut display, " (product ");
                push_hex4(&mut display, e.product_code);
                push_str(&mut display, ")");
                push_row(&mut rows, "Display", display.as_slice());
            }
        },
    }
    let ghost display_rows = row_views(rows@);

    match (e.max_width, e.max_height) {
        (Some(w), Some(h)) => {
            let mut v: Vec<char> = Vec::new();
            push_decimal(&mut v, w as u64);
            push_str(&mut v, "x");
            push_decimal(&mut v, h as u64);
            push_row(&mut rows, "Native", v.as_slice());
        },
        _ => {},
    }

    if e.digital {
        let mut v: Vec<char> = Vec::new();
        match e.bit_depth {
            Some(b) => {
                push_decimal(&mut v, b as u64);
                push_str(&mut v, "-bit");
            },
            None => {
                push_str(&mut v, "unknown depth");
            },
        }
        push_str(&mut v, ", digital");
        push_row(&mut rows, "Color", v.as_slice());
    }

    if e.width_cm > 0 && e.height_cm > 0 {
        let size = size_value(e.width_cm, e.height_cm);
        let sc = chars_of(size.as_str());
        push_row(&mut rows, "Size", sc.as_slice());
    }

    let mut v: Vec<char> = Vec::new();
    push_str(&mut v, "v");
    push_str(&mut v, e.version.as_str());
    push_str(&mut v, ", year ");
    push_decimal(&mut v, e.year as u64);
    push_str(&mut v, ", week ");
    push_decimal(&mut v, e.week as u64);
    push_row(&mut rows, "EDID", v.as_slice());
    assert(display_rows == if ev.display_name is Some || terminal {
        seq![("Display"@, display_value(ev))]
    } else {
        Seq::<(Seq<char>, Seq<char>)>::empty()
    });
    assert(row_views(rows@) =~= edid_rows(ev, terminal));
    rows
}

} // verus!

verus! {

/// The `DP Link Rate` and `DP Lanes` rows of a DisplayPort connector.
pub open spec fn dp_rows(dp: crate::dp_info::DpView) -> Seq<(Seq<char>, Seq<char>)> {
    if dp.is_dp {
        let rate = match dp.link_rate {
            Some(r) => seq![("DP Link Rate"@, r)],
            None => Seq::empty(),
        };
        let lanes = match dp.lane_count {
            Some(l) => seq![("DP Lanes"@, l)],
            None => Seq::empty(),
        };
        rate + lanes
    } else {
        Seq::empty()
    }
}

/// The `Modes` row's value: the modes separated by commas; the terminal report
/// writes `(none)` where there are none.
pub open spec fn modes_value(modes: Seq<Seq<char>>, terminal: bool) -> Seq<char> {
    if modes.len() == 0 && terminal {
        "(none)"@
    } else {
        join(modes, ", "@)
    }
}

/// The EDID rows of a connector: none unless it has an EDID blob that decodes.
pub open spec fn connector_edid_rows(
    c: crate::drm_info::ConnectorView,
    terminal: bool,
) -> Seq<(Seq<char>, Seq<char>)> {
    match c.edid_raw {
        Some(raw) => if is_edid(raw) {
            edid_rows(edid_of(raw), terminal)
        } else {
            Seq::empty()
        },
        None => Seq::empty(),
    }
}

/// All detail rows of a connector, in the order the report shows them.
pub open spec fn connector_rows(
    c: crate::drm_info::ConnectorView,
    dp: crate::dp_info::DpView,
    terminal: bool,
) -> Seq<(Seq<char>, Seq<char>)> {
    connector_edid_rows(c, terminal) + seq![("Protocol"@, c.connector_type)] + dp_rows(dp)
        + seq![("DPMS"@, c.dpms), ("Modes"@, modes_value(c.modes, terminal))]
}

/// Appends the strings of `items` to `out` with `sep` between each two.
pub fn push_joined(out: &mut Vec<char>, items: &Vec<String>, sep: &str)
    ensures
        final(out)@ == old(out)@ + join(views(items@), sep@),
{
    let ghost start = out@;
    let ghost all = views(items@);
    let n = items.len();
    for i in 0..n
        invariant
            n == items@.len(),
            all == views(items@),
            all.len() == n,
            out@ == start + join(all.take(i as int), sep@),
    {
        let ghost taken = all.take(i as int);
        if i > 0 {
            push_str(out, sep);
        }
        push_str(out, items[i].as_str());
        proof {
            let next = all.take(i + 1);
            assert(next.drop_last() =~= taken);
            assert(next.last() == items@[i as int]@);
            if i == 0 {
                assert(taken =~= Seq::<Seq<char>>::empty());
                assert(join(next, sep@) == next[0]);
            }
            assert(out@ =~= start + join(next, sep@));
        }
    }
    assert(all.take(n as int) =~= all);
}

fn push_row(rows: &mut Vec<DetailRow>, label: &str, value: &[char])
    ensures
        row_views(final(rows)@) == row_views(old(rows)@).push((label@, value@)),
{
    let row = make_row(label, value);
    let ghost before = rows@;
    rows.push(row);
    proof {
        lemma_row_views_push(before, row);
    }
}

fn connector_edid_detail_rows(c: &ConnectorInfo, terminal: bool) -> (rows: Vec<DetailRow>)
    ensures
        row_views(rows@) == connector_edid_rows(c@, terminal),
{
    let rows: Vec<DetailRow> = match &c.edid_raw {
        Some(raw) => match parse_edid(raw.as_slice()) {
            Some(e) => edid_detail_rows(&e, terminal),
            None => Vec::new(),
        },
        None => Vec::new(),
    };
    assert(row_views(rows@) =~= connector_edid_rows(c@, terminal));
    rows
}

fn push_dp_rows(rows: &mut Vec<DetailRow>, dp: &DpInfo)
    ensures
        row_views(final(rows)@) == row_views(old(rows)@) + dp_rows(dp@),
{
    let ghost start = row_views(rows@);
    if dp.is_dp {
        match &dp.link_rate {
            Some(r) => {
                let rc = chars_of(r.as_str());
                push_row(rows, "DP Link Rate", rc.as_slice());
            },
            None => {},
        }
        match &dp.lane_count {
            Some(l) => {
                let lc = chars_of(l.as_str());
                push_row(rows, "DP Lanes", lc.as_slice());
            },
            None => {},
        }
    }
    assert(row_views(rows@) =~= start + dp_rows(dp@));
}

/// All detail rows of a connector, given its DisplayPort details. `terminal`
/// selects the terminal report's wording over the window's.
pub fn detail_rows(c: &ConnectorInfo, dp: &DpInfo, terminal: bool) -> (rows: Vec<DetailRow>)
    ensures
        row_views(rows@) == connector_rows(c@, dp@, terminal),
{
    let mut rows = connector_edid_detail_rows(c, terminal);
    let ghost r0 = row_views(rows@);
    let ty = chars_of(c.connector_type.as_str());
    push_row(&mut rows, "Protocol", ty.as_slice());
    push_dp_rows(&mut rows, dp);
    let ghost r1 = row_views(rows@);
    let dc = chars_of(c.dpms.as_str());
    push_row(&mut rows, "DPMS", dc.as_slice());
    let mut mv: Vec<char> = Vec::new();
    if c.modes.len() == 0 && terminal {
        push_str(&mut mv, "(none)");
    } else {
        push_joined(&mut mv, &c.modes, ", ");
    }
    assert(mv@ =~= modes_value(c@.modes, terminal));
    push_row(&mut rows, "Modes", mv.as_slice());
    assert(r1 =~= r0 + seq![("Protocol"@, c@.connector_type)] + dp_rows(dp@));
    assert(row_views(rows@) =~= connector_rows(c@, dp@, terminal));
    rows
}

} // verus!

verus! {

/// `name [status]`, or `name [status, enabled]` for an enabled connector.
pub open spec fn connector_header_text(c: crate::drm_info::ConnectorView) -> Seq<char> {
    let enabled = if c.enabled {
        ", enabled"@
    } else {
        Seq::empty()
    };
    c.name + " ["@ + c.status + enabled + "]"@
}

/// Whether the report shows a connector's details: it is connected.
pub open spec fn is_connected(c: crate::drm_info::ConnectorView) -> bool {
    c.status == "connected"@
}

/// The tree branch in front of an entry; the last entry closes the branch.
pub open spec fn branch(is_last: bool) -> Seq<char> {
    if is_last {
        "└── "@
    } else {
        "├── "@
    }
}

/// What goes in front of the children of an entry.
pub open spec fn continuation(is_last: bool) -> Seq<char> {
    if is_last {
        "    "@
    } else {
        "│   "@
    }
}

/// Detail rows as tree lines under `prefix`: `├── Label: value`, the last with `└── `.
pub open spec fn detail_lines(rows: Seq<(Seq<char>, Seq<char>)>, prefix: Seq<char>) -> Seq<
    Seq<char>,
> {
    Seq::new(
        rows.len(),
        |k: int| prefix + branch(k == rows.len() - 1) + rows[k].0 + ": "@ + rows[k].1,
    )
}

/// The lines the terminal report gives one connector: its header on a branch and,
/// for a connected one, its details below it.
pub open spec fn connector_block_lines(
    c: crate::drm_info::ConnectorView,
    dp: crate::dp_info::DpView,
    is_last: bool,
) -> Seq<Seq<char>> {
    let head = seq![branch(is_last) + connector_header_text(c)];
    if is_connected(c) {
        head + detail_lines(connector_rows(c, dp, true), continuation(is_last))
    } else {
        head
    }
}

/// `name [status]` or `name [status, enabled]`.
pub fn connector_header(c: &ConnectorInfo) -> (s: String)
    ensures
        s@ == connector_header_text(c@),
{
    let mut v: Vec<char> = Vec::new();
    push_str(&mut v, c.name.as_str());
    push_str(&mut v, " [");
    push_str(&mut v, c.status.as_str());
    if c.enabled {
        push_str(&mut v, ", enabled");
    }
    push_str(&mut v, "]");
    assert(v@ =~= connector_header_text(c@));
    string_of(v.as_slice())
}

/// Whether a connector is connected, so that its details are shown.
pub fn shows_details(c: &ConnectorInfo) -> (r: bool)
    ensures
        r == is_connected(c@),
{
    let s = chars_of(c.status.as_str());
    let w = chars_of("connected");
    chars_eq(s.as_slice(), w.as_slice())
}

fn push_branch(out: &mut Vec<char>, is_last: bool)
    ensures
        final(out)@ == old(out)@ + branch(is_last),
{
    if is_last {
        push_str(out, "└── ");
    } else {
        push_str(out, "├── ");
    }
}

fn push_continuation(out: &mut Vec<char>, is_last: bool)
    ensures
        final(out)@ == old(out)@ + continuation(is_last),
{
    if is_last {
        push_str(out, "    ");
    } else {
        push_str(out, "│   ");
    }
}

/// The lines of the terminal report for one connector: its header on a tree branch
/// (the last branch of its card when `is_last`) and, when it is connected, one line
/// per detail row below it.
pub fn connector_block(c: &ConnectorInfo, dp: &DpInfo, is_last: bool) -> (lines: Vec<String>)
    ensures
        views(lines@) == connector_block_lines(c@, dp@, is_last),
{
    let mut lines: Vec<String> = Vec::new();
    let mut head: Vec<char> = Vec::new();
    push_branch(&mut head, is_last);
    let h = connector_header(c);
    push_str(&mut head, h.as_str());
    lines.push(string_of(head.as_slice()));
    let ghost first = views(lines@);
    assert(first =~= seq![branch(is_last) + connector_header_text(c@)]);
    if !shows_details(c) {
        return lines;
    }
    let rows = detail_rows(c, dp, true);
    let ghost rv = row_views(rows@);
    let ghost prefix = continuation(is_last);
    let n = rows.len();
    for k in 0..n
        invariant
            n == rows@.len() == rv.len(),
            rv == row_views(rows@),
            prefix == continuation(is_last),
            views(lines@) =~= first + detail_lines(rv, prefix).take(k as int),
    {
        let mut v: Vec<char> = Vec::new();
        push_continuation(&mut v, is_last);
        push_branch(&mut v, k + 1 == n);
        push_str(&mut v, rows[k].label.as_str());
        push_str(&mut v, ": ");
        push_str(&mut v, rows[k].value.as_str());
        let line = string_of(v.as_slice());
        let ghost before = lines@;
        lines.push(line);
        proof {
            assert(rv[k as int] == rows@[k as int]@);
            assert(views(lines@) =~= views(before).push(line@));
            assert(detail_lines(rv, prefix).take(k + 1) =~= detail_lines(rv, prefix).take(
                k as int,
            ).push(line@));
        }
    }
    assert(detail_lines(rv, prefix).take(n as int) =~= detail_lines(rv, prefix));
    lines
}

} // verus!

verus! {

/// The heading of a card in the report: what its GPU is, or only its name when
/// its device could not be read.
pub open spec fn gpu_header_text(
    gpu: Option<crate::gpu::GpuView>,
    fallback_name: Seq<char>,
) -> Seq<char> {
    match gpu {
        Some(g) => "GPU: "@ + g.description + " ["@ + g.card_name + "] (vendor="@ + g.pci_vendor
            + ", device="@ + g.pci_device + ")"@,
        None => "GPU: "@ + fallback_name,
    }
}

/// The view of an optional GPU description.
pub open spec fn opt_gpu(g: Option<GpuInfo>) -> Option<crate::gpu::GpuView> {
    match g {
        Some(x) => Some(x@),
        None => None,
    }
}

/// `GPU: Intel (Intel i915) [card1] (vendor=0x8086, device=0x7dd5)`, or
/// `GPU: card1` with the card's directory name when nothing is known of its device.
pub fn gpu_header(gpu: &Option<GpuInfo>, fallback_name: &str) -> (s: String)
    ensures
        s@ == gpu_header_text(opt_gpu(*gpu), fallback_name@),
{
    let mut v: Vec<char> = Vec::new();
    push_str(&mut v, "GPU: ");
    match gpu {
        Some(g) => {
            push_str(&mut v, g.description.as_str());
            push_str(&mut v, " [");
            push_str(&mut v, g.card_name.as_str());
            push_str(&mut v, "] (vendor=");
            push_str(&mut v, g.pci_vendor.as_str());
            push_str(&mut v, ", device=");
            push_str(&mut v, g.pci_device.as_str());
            push_str(&mut v, ")");
        },
        None => {
            push_str(&mut v, fallback_name);
        },
    }
    assert(v@ =~= gpu_header_text(opt_gpu(*gpu), fallback_name@));
    string_of(v.as_slice())
}

/// The connectors of one card: the card's path and the positions of its connectors.
pub struct CardGroup {
    pub card_path: String,
    pub members: Vec<usize>,
}

/// The components of a connector's card path.
pub open spec fn card_parts(c: ConnectorInfo) -> Seq<PathPart> {
    path_parts(c.card_path@)
}

/// Whether `groups` sorts the connectors `conns` by card, as a map keyed by
/// `PathBuf` and sorted by it does: one group per card path (paths compared by
/// their components), in increasing order of path; each group lists, in
/// increasing order, exactly the positions of the connectors on that card, and
/// carries the card path of its first connector.
pub open spec fn groups_by_card(conns: Seq<ConnectorInfo>, groups: Seq<CardGroup>) -> bool {
    &&& forall|a: int, b: int|
        0 <= a < b < groups.len() ==> parts_lt(
            path_parts(#[trigger] groups[a].card_path@),
            path_parts(#[trigger] groups[b].card_path@),
        )
    &&& forall|a: int| 0 <= a < groups.len() ==> #[trigger] groups[a].members@.len() > 0
    &&& forall|a: int, k: int, l: int|
        0 <= a < groups.len() && 0 <= k < l < groups[a].members@.len() ==> #[trigger] groups[a].members@[k]
            < #[trigger] groups[a].members@[l]
    &&& forall|a: int, i: int|
        0 <= a < groups.len() && 0 <= i < conns.len() ==> (#[trigger] groups[a].members@.contains(
            i as usize,
        ) <==> card_parts(conns[i]) == path_parts(groups[a].card_path@))
    &&& forall|a: int, k: int|
        0 <= a < groups.len() && 0 <= k < groups[a].members@.len() ==> #[trigger] groups[a].members@[k]
            < conns.len()
    &&& forall|a: int|
        0 <= a < groups.len() ==> (#[trigger] groups[a]).card_path@ == conns[groups[a].members@[0] as int].card_path@
    &&& forall|i: int| 0 <= i < conns.len() ==> has_group(groups, card_parts(#[trigger] conns[i]))
}

/// Whether some group is for the card path with components `p`.
pub open spec fn has_group(groups: Seq<CardGroup>, p: Seq<PathPart>) -> bool {
    exists|a: int| 0 <= a < groups.len() && path_parts(#[trigger] groups[a].card_path@) == p
}

} // verus!

verus! {

/// Whether some of the connectors at positions `keys` has a card path with components `p`.
spec fn key_listed(conns: Seq<ConnectorInfo>, keys: Seq<usize>, p: Seq<PathPart>) -> bool {
    exists|a: int| 0 <= a < keys.len() && card_parts(conns[#[trigger] keys[a] as int]) == p
}

/// The components of every connector's card path.
fn all_card_parts(conns: &[ConnectorInfo]) -> (all: Vec<Vec<PathComponent>>)
    ensures
        all@.len() == conns@.len(),
        forall|i: int| 0 <= i < conns@.len() ==> parts_view(#[trigger] all@[i]@) == card_parts(conns@[i]),
{
    let mut all: Vec<Vec<PathComponent>> = Vec::new();
    let n = conns.len();
    for i in 0..n
        invariant
            n == conns@.len(),
            all@.len() == i,
            forall|k: int| 0 <= k < i ==> parts_view(#[trigger] all@[k]@) == card_parts(conns@[k]),
    {
        let cs = chars_of(conns[i].card_path.as_str());
        all.push(path_components(cs.as_slice()));
    }
    all
}

/// One connector for each distinct card path (paths compared by components), in
/// increasing order of path.
fn distinct_card_keys(conns: &[ConnectorInfo], all: &Vec<Vec<PathComponent>>) -> (keys: Vec<usize>)
    requires
        all@.len() == conns@.len(),
        forall|i: int| 0 <= i < conns@.len() ==> parts_view(#[trigger] all@[i]@) == card_parts(conns@[i]),
    ensures
        forall|a: int| 0 <= a < keys@.len() ==> #[trigger] keys@[a] < conns@.len(),
        forall|a: int, b: int|
            0 <= a < b < keys@.len() ==> parts_lt(
                card_parts(conns@[#[trigger] keys@[a] as int]),
                card_parts(conns@[#[trigger] keys@[b] as int]),
            ),
        forall|i: int|
            0 <= i < conns@.len() ==> key_listed(conns@, keys@, card_parts(#[trigger] conns@[i])),
{
    let mut keys: Vec<usize> = Vec::new();
    let n = conns.len();
    let mut idx: usize = 0;
    while idx < n
        invariant
            n == conns@.len() == all@.len(),
            idx <= n,
            forall|i: int| 0 <= i < conns@.len() ==> parts_view(#[trigger] all@[i]@) == card_parts(conns@[i]),
            forall|a: int| 0 <= a < keys@.len() ==> #[trigger] keys@[a] < n,
            forall|a: int, b: int|
                0 <= a < b < keys@.len() ==> parts_lt(
                    card_parts(conns@[#[trigger] keys@[a] as int]),
                    card_parts(conns@[#[trigger] keys@[b] as int]),
                ),
            forall|i: int|
                0 <= i < idx ==> key_listed(conns@, keys@, card_parts(#[trigger] conns@[i])),
        decreases n - idx,
    {
        let ghost xv = card_parts(conns@[idx as int]);
        let mut p: usize = 0;
        while p < keys.len() && components_lt(all[keys[p]].as_slice(), all[idx].as_slice())
            invariant
                p <= keys@.len(),
                n == conns@.len() == all@.len(),
                idx < n,
                forall|a: int| 0 <= a < keys@.len() ==> #[trigger] keys@[a] < n,
                forall|i: int|
                    0 <= i < conns@.len() ==> parts_view(#[trigger] all@[i]@) == card_parts(conns@[i]),
                xv == card_parts(conns@[idx as int]),
                forall|a: int|
                    0 <= a < p ==> parts_lt(card_parts(conns@[#[trigger] keys@[a] as int]), xv),
            decreases keys@.len() - p,
        {
            assert(parts_view(all@[keys@[p as int] as int]@) == card_parts(conns@[keys@[p as int] as int]));
            p = p + 1;
        }
        let ghost old_keys = keys@;
        let ghost kv = |a: int| card_parts(conns@[old_keys[a] as int]);
        if p < keys.len() && same_components(all[keys[p]].as_slice(), all[idx].as_slice()) {
            assert(parts_view(all@[keys@[p as int] as int]@) == card_parts(conns@[keys@[p as int] as int]));
            assert(card_parts(conns@[keys@[p as int] as int]) == xv);
        } else {
            if p < keys.len() {
                assert(parts_view(all@[keys@[p as int] as int]@) == card_parts(conns@[keys@[p as int] as int]));
            }
            keys.insert(p, idx);
            proof {
                assert forall|a: int| 0 <= a < keys@.len() implies #[trigger] keys@[a] < n by {
                    if a < p {
                        assert(keys@[a] == old_keys[a]);
                    } else if a > p {
                        assert(keys@[a] == old_keys[a - 1]);
                    }
                }
                assert forall|a: int, b: int| 0 <= a < b < keys@.len() implies parts_lt(
                    card_parts(conns@[#[trigger] keys@[a] as int]),
                    card_parts(conns@[#[trigger] keys@[b] as int]),
                ) by {
                    if b == p {
                        assert(keys@[a] == old_keys[a]);
                    } else if a == p {
                        let y = kv(p as int);
                        lemma_parts_total(xv, y);
                        if b > p + 1 {
                            lemma_parts_transitive(xv, y, kv(b - 1));
                        }
                        assert(keys@[b] == old_keys[b - 1]);
                    } else if a < p && b > p {
                        let y = kv(p as int);
                        lemma_parts_total(xv, y);
                        if b > p + 1 {
                            lemma_parts_transitive(xv, y, kv(b - 1));
                        }
                        assert(keys@[a] == old_keys[a] && keys@[b] == old_keys[b - 1]);
                        lemma_parts_transitive(kv(a), xv, kv(b - 1));
                    } else if b < p {
                        assert(keys@[a] == old_keys[a] && keys@[b] == old_keys[b]);
                    } else {
                        assert(keys@[a] == old_keys[a - 1] && keys@[b] == old_keys[b - 1]);
                    }
                }
                assert forall|q: Seq<PathPart>| key_listed(conns@, old_keys, q) implies key_listed(
                    conns@,
                    keys@,
                    q,
                ) by {
                    let a = choose|a: int|
                        0 <= a < old_keys.len() && card_parts(conns@[#[trigger] old_keys[a] as int])
                            == q;
                    if a < p {
                        assert(keys@[a] == old_keys[a]);
                    } else {
                        assert(keys@[a + 1] == old_keys[a]);
                    }
                }
                assert(keys@[p as int] == idx);
            }
        }
        assert(key_listed(conns@, keys@, card_parts(conns@[idx as int])));
        idx = idx + 1;
    }
    keys
}

/// The positions of the connectors whose card path has the components `key`, in
/// increasing order.
fn members_of(
    conns: &[ConnectorInfo],
    all: &Vec<Vec<PathComponent>>,
    key: &[PathComponent],
) -> (m: Vec<usize>)
    requires
        all@.len() == conns@.len(),
        forall|i: int| 0 <= i < conns@.len() ==> parts_view(#[trigger] all@[i]@) == card_parts(conns@[i]),
    ensures
        forall|k: int, l: int| 0 <= k < l < m@.len() ==> #[trigger] m@[k] < #[trigger] m@[l],
        forall|k: int| 0 <= k < m@.len() ==> #[trigger] m@[k] < conns@.len(),
        forall|i: int|
            0 <= i < conns@.len() ==> (#[trigger] m@.contains(i as usize) <==> card_parts(conns@[i])
                == parts_view(key@)),
{
    let mut m: Vec<usize> = Vec::new();
    let n = conns.len();
    let mut j: usize = 0;
    while j < n
        invariant
            n == conns@.len() == all@.len(),
            j <= n,
            forall|i: int| 0 <= i < conns@.len() ==> parts_view(#[trigger] all@[i]@) == card_parts(conns@[i]),
            forall|k: int, l: int| 0 <= k < l < m@.len() ==> #[trigger] m@[k] < #[trigger] m@[l],
            forall|k: int| 0 <= k < m@.len() ==> #[trigger] m@[k] < j,
            forall|i: int|
                0 <= i < j ==> (#[trigger] m@.contains(i as usize) <==> card_parts(conns@[i])
                    == parts_view(key@)),
        decreases n - j,
    {
        let ghost before = m@;
        assert(parts_view(all@[j as int]@) == card_parts(conns@[j as int]));
        if same_components(all[j].as_slice(), key) {
            m.push(j);
        }
        proof {
            assert forall|i: int| 0 <= i < j + 1 implies (#[trigger] m@.contains(i as usize)
                <==> card_parts(conns@[i]) == parts_view(key@)) by {
                if i < j {
                    if before.contains(i as usize) {
                        let k = choose|k: int| 0 <= k < before.len() && before[k] == i as usize;
                        assert(m@[k] == i as usize);
                    }
                    if m@.contains(i as usize) {
                        let k = choose|k: int| 0 <= k < m@.len() && m@[k] == i as usize;
                        if k < before.len() {
                            assert(before[k] == i as usize);
                        }
                    }
                } else {
                    if card_parts(conns@[i]) == parts_view(key@) {
                        assert(m@[m@.len() - 1] == j);
                    } else if m@.contains(i as usize) {
                        let k = choose|k: int| 0 <= k < m@.len() && m@[k] == i as usize;
                        assert(before[k] < j);
                    }
                }
            }
        }
        j = j + 1;
    }
    m
}

/// Sorts connectors by card, as the report lists them: one group per card path
/// (compared by components, as `PathBuf` compares), in increasing order of path,
/// each with the positions of that card's connectors in their given order and
/// the card path of the first of them.
pub fn group_by_card(conns: &[ConnectorInfo]) -> (groups: Vec<CardGroup>)
    ensures
        groups_by_card(conns@, groups@),
{
    let all = all_card_parts(conns);
    let keys = distinct_card_keys(conns, &all);
    let mut groups: Vec<CardGroup> = Vec::new();
    let nk = keys.len();
    let mut gi: usize = 0;
    while gi < nk
        invariant
            nk == keys@.len(),
            gi <= nk,
            groups@.len() == gi,
            all@.len() == conns@.len(),
            forall|i: int| 0 <= i < conns@.len() ==> parts_view(#[trigger] all@[i]@) == card_parts(conns@[i]),
            forall|a: int| 0 <= a < keys@.len() ==> #[trigger] keys@[a] < conns@.len(),
            forall|b: int|
                0 <= b < gi ==> path_parts((#[trigger] groups@[b]).card_path@) == card_parts(
                    conns@[keys@[b] as int],
                ),
            forall|b: int| 0 <= b < gi ==> #[trigger] groups@[b].members@.len() > 0,
            forall|b: int, k: int, l: int|
                0 <= b < gi && 0 <= k < l < groups@[b].members@.len()
                    ==> #[trigger] groups@[b].members@[k] < #[trigger] groups@[b].members@[l],
            forall|b: int, i: int|
                0 <= b < gi && 0 <= i < conns@.len() ==> (
                #[trigger] groups@[b].members@.contains(i as usize) <==> card_parts(conns@[i])
                    == path_parts(groups@[b].card_path@)),
            forall|b: int, k: int|
                0 <= b < gi && 0 <= k < groups@[b].members@.len()
                    ==> #[trigger] groups@[b].members@[k] < conns@.len(),
            forall|b: int|
                0 <= b < gi ==> (#[trigger] groups@[b]).card_path@ == conns@[groups@[b].members@[0] as int].card_path@,
        decreases nk - gi,
    {
        let key = keys[gi];
        let members = members_of(conns, &all, all[key].as_slice());
        let ghost key_view = card_parts(conns@[key as int]);
        proof {
            assert(parts_view(all@[key as int]@) == key_view);
            assert(members@.contains((key as int) as usize));
        }
        let first = members[0];
        let card_path = conns[first].card_path.clone();
        proof {
            assert(members@[0] == first);
            assert(members@.contains((first as int) as usize));
            assert(card_parts(conns@[first as int]) == key_view);
            assert(card_path@ == conns@[first as int].card_path@);
        }
        let g = CardGroup { card_path, members };
        let ghost old_groups = groups@;
        groups.push(g);
        proof {
            assert(path_parts(groups@[gi as int].card_path@) == key_view);
            assert forall|b: int| 0 <= b <= gi implies path_parts((#[trigger] groups@[b]).card_path@)
                == card_parts(conns@[keys@[b] as int]) by {
                if b < gi {
                    assert(groups@[b] == old_groups[b]);
                }
            }
        }
        gi = gi + 1;
    }
    proof {
        assert forall|i: int| 0 <= i < conns@.len() implies has_group(
            groups@,
            card_parts(#[trigger] conns@[i]),
        ) by {
            assert(key_listed(conns@, keys@, card_parts(conns@[i])));
            let a = choose|a: int|
                0 <= a < keys@.len() && card_parts(conns@[#[trigger] keys@[a] as int]) == card_parts(
                    conns@[i],
                );
            assert(path_parts(groups@[a].card_path@) == card_parts(conns@[keys@[a] as int]));
        }
        assert forall|a: int, b: int| 0 <= a < b < groups@.len() implies parts_lt(
            path_parts(#[trigger] groups@[a].card_path@),
            path_parts(#[trigger] groups@[b].card_path@),
        ) by {
            assert(path_parts(groups@[a].card_path@) == card_parts(conns@[keys@[a] as int]));
            assert(path_parts(groups@[b].card_path@) == card_parts(conns@[keys@[b] as int]));
        }
    }
    groups
}

} // verus!

verus! {

/// In a grouping by card, every connector is listed under exactly one card.
pub proof fn lemma_connector_in_exactly_one_group(
    conns: Seq<ConnectorInfo>,
    groups: Seq<CardGroup>,
    i: int,
)
    requires
        groups_by_card(conns, groups),
        0 <= i < conns.len(),
    ensures
        exists|a: int| 0 <= a < groups.len() && #[trigger] groups[a].members@.contains(i as usize),
        forall|a1: int, a2: int|
            0 <= a1 < groups.len() && 0 <= a2 < groups.len() && #[trigger] groups[a1].members@.contains(
                i as usize,
            ) && #[trigger] groups[a2].members@.contains(i as usize) ==> a1 == a2,
{
    assert(has_group(groups, card_parts(conns[i])));
    let a = choose|a: int| 0 <= a < groups.len() && path_parts(#[trigger] groups[a].card_path@) == card_parts(conns[i]);
    assert(groups[a].members@.contains(i as usize));
    assert forall|a1: int, a2: int|
        0 <= a1 < groups.len() && 0 <= a2 < groups.len() && #[trigger] groups[a1].members@.contains(
            i as usize,
        ) && #[trigger] groups[a2].members@.contains(i as usize) implies a1 == a2 by {
        if a1 < a2 {
            lemma_parts_irreflexive(path_parts(groups[a1].card_path@));
        } else if a2 < a1 {
            lemma_parts_irreflexive(path_parts(groups[a2].card_path@));
        }
    }
}

} // verus!

verus! {

/// The colour depth reported for a digital display: bits 4..6 of the EDID's video
/// input byte give 6, 8, 10, 12, 14 or 16 bits for codes 1 to 6; any other code
/// leaves the depth unknown.
pub open spec fn expected_color_text(input: u8) -> Seq<char> {
    let code = (input / 16) % 8;
    if 1 <= code <= 6 {
        decimal((4 + 2 * code) as nat) + "-bit, digital"@
    } else {
        "unknown depth, digital"@
    }
}

/// A digital display's EDID rows hold a `Color` row that names the bit count its
/// depth code gives, or says the depth is unknown where the code gives none; an
/// analog display has no `Color` row.
pub proof fn lemma_color_row(raw: Seq<u8>, terminal: bool)
    requires
        is_edid(raw),
    ensures
        raw[20] >= 128 ==> exists|k: int|
            0 <= k < edid_rows(edid_of(raw), terminal).len() && #[trigger] edid_rows(
                edid_of(raw),
                terminal,
            )[k] == ("Color"@, expected_color_text(raw[20])),
        raw[20] < 128 ==> forall|k: int|
            0 <= k < edid_rows(edid_of(raw), terminal).len() ==> (#[trigger] edid_rows(
                edid_of(raw),
                terminal,
            )[k]).0 != "Color"@,
{
    let e = edid_of(raw);
    let rows = edid_rows(e, terminal);
    reveal_strlit("-bit");
    reveal_strlit(", digital");
    reveal_strlit("-bit, digital");
    reveal_strlit("unknown depth");
    reveal_strlit("unknown depth, digital");
    reveal_strlit("Color");
    reveal_strlit("Display");
    reveal_strlit("Native");
    reveal_strlit("Size");
    reveal_strlit("EDID");
    let display = if e.display_name is Some || terminal {
        seq![("Display"@, display_value(e))]
    } else {
        Seq::empty()
    };
    let native = match (e.max_width, e.max_height) {
        (Some(w), Some(h)) => seq![("Native"@, decimal(w as nat) + "x"@ + decimal(h as nat))],
        _ => Seq::empty(),
    };
    let k: int = (display.len() + native.len()) as int;
    if raw[20] >= 128 {
        assert(color_value(e.bit_depth) =~= expected_color_text(raw[20]));
        assert(rows[k] == ("Color"@, color_value(e.bit_depth)));
    } else {
        assert forall|k: int| 0 <= k < rows.len() implies (#[trigger] rows[k]).0 != "Color"@ by {
            let lab = rows[k].0;
            if k < display.len() {
                assert(lab == "Display"@);
                assert(lab[0] != "Color"@[0]);
            } else if k < display.len() + native.len() {
                assert(lab == "Native"@);
                assert(lab[0] != "Color"@[0]);
            } else {
                assert(lab == "Size"@ || lab == "EDID"@);
                assert(lab.len() != 5 || lab[0] != "Color"@[0]);
            }
        }
    }
}

} // verus!
