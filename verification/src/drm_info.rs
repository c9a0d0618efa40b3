use vstd::prelude::*;

use crate::text::{
    chars_eq, chars_lt, chars_of, find_first, find_last, first_index, last_index,
    lemma_lex_asymmetric, lemma_lex_irreflexive, lemma_lex_total, lemma_lex_transitive, lex_lt, opt_chars, push_chars,
    push_str, slice_chars, string_of, trim, trim_chars, trimmed,
};

verus! {

/// Whether every character is an ASCII decimal digit (true of the empty sequence).
pub open spec fn all_ascii_digits(s: Seq<char>) -> bool {
    forall|k: int| 0 <= k < s.len() ==> '0' <= #[trigger] s[k] <= '9'
}

/// The connector type in a connector name such as `card1-HDMI-A-1`: the part after
/// the first `-`, without a trailing `-` and index made of digits. A name without
/// `-` is its own type.
pub open spec fn connector_type_of(name: Seq<char>) -> Seq<char> {
    let p = first_index(name, '-');
    if p == name.len() {
        name
    } else {
        let rest = name.skip(p + 1);
        let q = last_index(rest, '-');
        if q >= 0 && all_ascii_digits(rest.skip(q + 1)) {
            rest.take(q)
        } else {
            rest
        }
    }
}

fn all_digits(cs: &[char], from: usize) -> (r: bool)
    requires
        from <= cs@.len(),
    ensures
        r == all_ascii_digits(cs@.skip(from as int)),
{
    let mut k = from;
    while k < cs.len()
        invariant
            from <= k <= cs@.len(),
            forall|m: int| from <= m < k ==> '0' <= #[trigger] cs@[m] <= '9',
        decreases cs@.len() - k,
    {
        if !('0' <= cs[k] && cs[k] <= '9') {
            assert(cs@.skip(from as int)[k - from] == cs@[k as int]);
            return false;
        }
        k = k + 1;
    }
    assert forall|m: int| 0 <= m < cs@.skip(from as int).len() implies '0' <= #[trigger] cs@.skip(
        from as int,
    )[m] <= '9' by {
        assert(cs@.skip(from as int)[m] == cs@[m + from]);
    }
    true
}

/// The connector type of a connector name (`card1-eDP-1` gives `eDP`).
pub fn parse_connector_type(name: &str) -> (t: String)
    ensures
        t@ == connector_type_of(name@),
{
    let cs = chars_of(name);
    let p = find_first(cs.as_slice(), '-');
    if p == cs.len() {
        return string_of(cs.as_slice());
    }
    let rest = slice_chars(cs.as_slice(), p + 1, cs.len());
    assert(rest@ == name@.skip(p + 1));
    match find_last(rest.as_slice(), '-') {
        Some(q) => {
            if all_digits(rest.as_slice(), q + 1) {
                let ty = slice_chars(rest.as_slice(), 0, q);
                assert(ty@ == rest@.take(q as int));
                return string_of(ty.as_slice());
            }
            string_of(rest.as_slice())
        },
        None => string_of(rest.as_slice()),
    }
}

} // verus!

verus! {

/// One DRM connector as read from its sysfs directory.
pub struct ConnectorInfo {
    pub name: String,
    pub connector_type: String,
    pub status: String,
    pub enabled: bool,
    pub dpms: String,
    pub modes: Vec<String>,
    pub edid_raw: Option<Vec<u8>>,
    /// Path of the card directory the connector belongs to, such as `/sys/class/drm/card1`.
    pub card_path: String,
}

/// The mathematical content of a `ConnectorInfo`.
pub struct ConnectorView {
    pub name: Seq<char>,
    pub connector_type: Seq<char>,
    pub status: Seq<char>,
    pub enabled: bool,
    pub dpms: Seq<char>,
    pub modes: Seq<Seq<char>>,
    pub edid_raw: Option<Seq<u8>>,
    pub card_path: Seq<char>,
}

/// The character sequences of a sequence of strings.
pub open spec fn views(v: Seq<String>) -> Seq<Seq<char>> {
    v.map_values(|s: String| s@)
}

/// The bytes of an optional byte vector.
pub open spec fn opt_bytes(o: Option<Vec<u8>>) -> Option<Seq<u8>> {
    match o {
        Some(v) => Some(v@),
        None => None,
    }
}

impl View for ConnectorInfo {
    type V = ConnectorView;

    open spec fn view(&self) -> ConnectorView {
        ConnectorView {
            name: self.name@,
            connector_type: self.connector_type@,
            status: self.status@,
            enabled: self.enabled,
            dpms: self.dpms@,
            modes: views(self.modes@),
            edid_raw: opt_bytes(self.edid_raw),
            card_path: self.card_path@,
        }
    }
}

/// The directory that holds the DRM cards and connectors.
pub open spec fn drm_dir() -> Seq<char> {
    "/sys/class/drm/"@
}

/// Whether a sysfs entry name can be a connector (`card1-DP-1`): it holds a `-`.
pub open spec fn is_connector_name_spec(name: Seq<char>) -> bool {
    first_index(name, '-') < name.len()
}

/// The card part of a connector name: what comes before its first `-`.
pub open spec fn card_name_of(name: Seq<char>) -> Seq<char> {
    name.take(first_index(name, '-'))
}

/// The display modes listed in a sysfs `modes` file: each line trimmed, empty lines dropped.
pub open spec fn mode_list(s: Seq<char>) -> Seq<Seq<char>>
    decreases s.len(),
{
    let p = first_index(s, '\n');
    let line = trimmed(s.take(p));
    let rest = if 0 <= p < s.len() {
        mode_list(s.skip(p + 1))
    } else {
        Seq::empty()
    };
    if line.len() > 0 {
        seq![line] + rest
    } else {
        rest
    }
}

/// What a connector's sysfs attributes describe, given its entry name, its `status`,
/// `enabled`, `dpms` and `modes` files (each as read, where it could be read) and its
/// `edid` blob.
pub open spec fn connector_of(
    name: Seq<char>,
    status: Seq<char>,
    enabled: Option<Seq<char>>,
    dpms: Option<Seq<char>>,
    modes: Option<Seq<char>>,
    edid: Option<Seq<u8>>,
) -> ConnectorView {
    ConnectorView {
        name: name,
        connector_type: connector_type_of(name),
        status: trimmed(status),
        enabled: match enabled {
            Some(e) => trimmed(e) == "enabled"@,
            None => false,
        },
        dpms: match dpms {
            Some(d) => trimmed(d),
            None => Seq::empty(),
        },
        modes: match modes {
            Some(m) => mode_list(trimmed(m)),
            None => Seq::empty(),
        },
        edid_raw: match edid {
            Some(e) => if e.len() > 0 {
                Some(e)
            } else {
                None
            },
            None => None,
        },
        card_path: drm_dir() + card_name_of(name),
    }
}

/// Whether a sysfs entry name can be a connector: it holds a `-` (cards such as
/// `card1`, render nodes and `version` do not).
pub fn is_connector_name(name: &str) -> (r: bool)
    ensures
        r == is_connector_name_spec(name@),
{
    let cs = chars_of(name);
    find_first(cs.as_slice(), '-') < cs.len()
}

/// The lines of a `modes` file, trimmed, without the empty ones.
pub fn parse_modes(text: &str) -> (modes: Vec<String>)
    ensures
        views(modes@) == mode_list(text@),
{
    let cs = chars_of(text);
    let n = cs.len();
    let mut out: Vec<String> = Vec::new();
    let mut start: usize = 0;
    let mut done = false;
    assert(text@.skip(0) == text@);
    assert(views(out@) == Seq::<Seq<char>>::empty());
    while !done
        invariant
            n == cs@.len(),
            cs@ == text@,
            start <= n,
            done ==> mode_list(text@) == views(out@),
            !done ==> mode_list(text@) == views(out@) + mode_list(text@.skip(start as int)),
        decreases n - start + (if done { 0int } else { 1int }),
    {
        let rest = slice_chars(cs.as_slice(), start, n);
        assert(rest@ =~= text@.skip(start as int));
        let p = find_first(rest.as_slice(), '\n');
        let line_chars = slice_chars(rest.as_slice(), 0, p);
        assert(line_chars@ == rest@.take(p as int));
        let line = trim_chars(line_chars.as_slice());
        let ghost before = out@;
        if line.len() > 0 {
            let s = string_of(line.as_slice());
            out.push(s);
            assert(views(out@) == views(before) + seq![line@]);
        } else {
            assert(views(out@) == views(before));
        }
        if p < rest.len() {
            assert(rest@.skip(p + 1) == text@.skip(start + p + 1));
            start = start + p + 1;
        } else {
            done = true;
        }
    }
    out
}

/// The characters of an optional file content, trimmed.
fn trimmed_or_empty(raw: &Option<String>) -> (s: String)
    ensures
        s@ == match opt_chars(*raw) {
            Some(t) => trimmed(t),
            None => Seq::empty(),
        },
{
    match raw {
        Some(t) => trim(t.as_str()),
        None => String::new(),
    }
}

/// Assembles a connector from its sysfs entry name and what was read from its
/// directory. Gives `None` for an entry that is not a connector: a name without
/// `-`, or no readable `status` file.
pub fn connector_from_sysfs(
    name: String,
    status: Option<String>,
    enabled: Option<String>,
    dpms: Option<String>,
    modes: Option<String>,
    edid: Option<Vec<u8>>,
) -> (r: Option<ConnectorInfo>)
    ensures
        r is Some <==> is_connector_name_spec(name@) && status is Some,
        r matches Some(c) ==> c@ == connector_of(
            name@,
            status->0@,
            opt_chars(enabled),
            opt_chars(dpms),
            opt_chars(modes),
            opt_bytes(edid),
        ),
{
    if !is_connector_name(name.as_str()) {
        return None;
    }
    let status_text = match &status {
        Some(s) => trim(s.as_str()),
        None => {
            return None;
        },
    };
    let enabled_flag = match &enabled {
        Some(e) => {
            let t = trim(e.as_str());
            let tc = chars_of(t.as_str());
            let word = chars_of("enabled");
            chars_eq(tc.as_slice(), word.as_slice())
        },
        None => false,
    };
    let dpms_text = trimmed_or_empty(&dpms);
    let mode_names = match &modes {
        Some(m) => {
            let t = trim(m.as_str());
            parse_modes(t.as_str())
        },
        None => Vec::new(),
    };
    proof {
        if modes is None {
            assert(views(mode_names@) == Seq::<Seq<char>>::empty());
        }
    }
    let edid_raw = match edid {
        Some(e) => if e.len() > 0 {
            Some(e)
        } else {
            None
        },
        None => None,
    };
    let cs = chars_of(name.as_str());
    let p = find_first(cs.as_slice(), '-');
    let card = slice_chars(cs.as_slice(), 0, p);
    let mut path: Vec<char> = Vec::new();
    push_str(&mut path, "/sys/class/drm/");
    push_chars(&mut path, card.as_slice());
    let card_path = string_of(path.as_slice());
    let connector_type = parse_connector_type(name.as_str());
    Some(
        ConnectorInfo {
            name,
            connector_type,
            status: status_text,
            enabled: enabled_flag,
            dpms: dpms_text,
            modes: mode_names,
            edid_raw,
            card_path,
        },
    )
}

} // verus!

verus! {

/// Whether the connectors are in order of name (lexicographic, ties allowed).
pub open spec fn sorted_by_name(s: Seq<ConnectorInfo>) -> bool {
    forall|i: int, j: int|
        0 <= i < j < s.len() ==> !lex_lt(#[trigger] s[j].name@, #[trigger] s[i].name@)
}

/// Where `x` goes in the name-sorted `out`: after every connector whose name is not
/// after its own.
fn insert_position(out: &Vec<ConnectorInfo>, x: &[char]) -> (p: usize)
    ensures
        p <= out@.len(),
        forall|k: int| 0 <= k < p ==> !lex_lt(x@, #[trigger] out@[k].name@),
        p < out@.len() ==> lex_lt(x@, out@[p as int].name@),
{
    let mut p: usize = 0;
    while p < out.len()
        invariant
            p <= out@.len(),
            forall|k: int| 0 <= k < p ==> !lex_lt(x@, #[trigger] out@[k].name@),
        decreases out@.len() - p,
    {
        let other = chars_of(out[p].name.as_str());
        if chars_lt(x, other.as_slice()) {
            return p;
        }
        p = p + 1;
    }
    p
}

/// Whether `r` is `v` rearranged by `perm` (`r[k]` is `v[perm[k]]`, each position
/// of `v` used once) so that connectors with equal names keep their order.
pub open spec fn stable_rearrangement(
    r: Seq<ConnectorInfo>,
    v: Seq<ConnectorInfo>,
    perm: Seq<int>,
) -> bool {
    &&& perm.len() == r.len()
    &&& forall|k: int|
        0 <= k < r.len() ==> 0 <= #[trigger] perm[k] < v.len() && r[k] == v[perm[k]]
    &&& forall|k: int, l: int|
        0 <= k < l < r.len() ==> #[trigger] perm[k] != #[trigger] perm[l]
    &&& forall|k: int, l: int|
        0 <= k < l < r.len() && #[trigger] r[k].name@ == #[trigger] r[l].name@ ==> perm[k]
            < perm[l]
}

/// The connectors ordered by name, as the stable `sort_by` on the names orders
/// them: the same connectors, each name no later than the next, and connectors
/// with equal names in their given order.
pub fn sort_connectors_by_name(v: Vec<ConnectorInfo>) -> (r: Vec<ConnectorInfo>)
    ensures
        r@.to_multiset() == v@.to_multiset(),
        sorted_by_name(r@),
        r@.len() == v@.len(),
        exists|perm: Seq<int>| stable_rearrangement(r@, v@, perm),
{
    broadcast use vstd::seq_lib::group_to_multiset_ensures;
    broadcast use vstd::multiset::group_multiset_axioms;

    let ghost all = v@;
    let mut rest = v;
    let mut out: Vec<ConnectorInfo> = Vec::new();
    let ghost mut perm: Seq<int> = Seq::empty();
    while rest.len() > 0
        invariant
            out@.to_multiset().add(rest@.to_multiset()) == all.to_multiset(),
            sorted_by_name(out@),
            out@.len() <= all.len(),
            rest@ == all.skip(out@.len() as int),
            perm.len() == out@.len(),
            forall|k: int|
                0 <= k < out@.len() ==> 0 <= #[trigger] perm[k] < out@.len() && out@[k]
                    == all[perm[k]],
            forall|k: int, l: int|
                0 <= k < l < out@.len() ==> #[trigger] perm[k] != #[trigger] perm[l],
            forall|k: int, l: int|
                0 <= k < l < out@.len() && #[trigger] out@[k].name@ == #[trigger] out@[l].name@
                    ==> perm[k] < perm[l],
        decreases rest@.len(),
    {
        let ghost rest0 = rest@;
        let ghost out0 = out@;
        let ghost perm0 = perm;
        let ghost n0 = out@.len() as int;
        let x = rest.remove(0);
        let xc = chars_of(x.name.as_str());
        let p = insert_position(&out, xc.as_slice());
        out.insert(p, x);
        proof {
            perm = perm0.insert(p as int, n0);
            assert(x == all[n0]) by {
                assert(rest0[0] == all.skip(n0)[0]);
            }
            assert(rest@ =~= all.skip(n0 + 1));
            assert forall|k: int| 0 <= k < out@.len() implies 0 <= #[trigger] perm[k] < out@.len()
                && out@[k] == all[perm[k]] by {
                if k < p {
                    assert(perm[k] == perm0[k] && out@[k] == out0[k]);
                } else if k > p {
                    assert(perm[k] == perm0[k - 1] && out@[k] == out0[k - 1]);
                }
            }
            assert forall|k: int, l: int| 0 <= k < l < out@.len() implies #[trigger] perm[k]
                != #[trigger] perm[l] by {
                if l == p {
                    assert(perm[k] == perm0[k]);
                } else if k == p {
                    assert(perm[l] == perm0[l - 1]);
                } else {
                    let k0 = if k < p { k } else { k - 1 };
                    let l0 = if l < p { l } else { l - 1 };
                    assert(perm[k] == perm0[k0] && perm[l] == perm0[l0]);
                }
            }
            assert forall|k: int, l: int|
                0 <= k < l < out@.len() && #[trigger] out@[k].name@ == #[trigger] out@[l].name@
                    implies perm[k] < perm[l] by {
                if l == p {
                    assert(perm[k] == perm0[k]);
                } else if k == p {
                    lemma_lex_irreflexive(out0[l - 1].name@);
                    assert(out@[l] == out0[l - 1]);
                    let z = out0[p as int].name@;
                    if l - 1 > p {
                        lemma_lex_total(z, out0[l - 1].name@);
                        if z != out0[l - 1].name@ {
                            lemma_lex_transitive(x.name@, z, out0[l - 1].name@);
                        }
                    }
                } else {
                    let k0 = if k < p { k } else { k - 1 };
                    let l0 = if l < p { l } else { l - 1 };
                    assert(perm[k] == perm0[k0] && perm[l] == perm0[l0]);
                    assert(out@[k] == out0[k0] && out@[l] == out0[l0]);
                }
            }
            vstd::seq_lib::to_multiset_remove(rest0, 0);
            vstd::seq_lib::to_multiset_insert(out0, p as int, x);
            vstd::seq_lib::to_multiset_contains(rest0, x);
            assert(rest0.contains(rest0[0]));
            assert(rest0.to_multiset().count(x) > 0);
            assert(out@.to_multiset().add(rest@.to_multiset()) =~= all.to_multiset());
            assert forall|i: int, j: int| 0 <= i < j < out@.len() implies !lex_lt(
                #[trigger] out@[j].name@,
                #[trigger] out@[i].name@,
            ) by {
                if i < p && j == p {
                } else if i == p && j > p {
                    let y = out0[j - 1].name@;
                    let z = out0[p as int].name@;
                    lemma_lex_total(z, y);
                    if z != y {
                        lemma_lex_transitive(x.name@, z, y);
                    }
                    lemma_lex_asymmetric(x.name@, y);
                } else if i < p && j > p {
                    assert(out@[i] == out0[i]);
                    assert(out@[j] == out0[j - 1]);
                } else if j < p {
                    assert(out@[i] == out0[i]);
                    assert(out@[j] == out0[j]);
                } else {
                    assert(out@[i] == out0[i - 1]);
                    assert(out@[j] == out0[j - 1]);
                }
            }
        }
    }
    assert(rest@.to_multiset() =~= vstd::multiset::Multiset::empty());
    assert(stable_rearrangement(out@, all, perm));
    out
}

} // verus!

verus! {

/// Connector names follow the scheme `<card>-<type>-<index>`: for a card name
/// without `-` and an index of digits, the connector's type is `<type>` (which
/// may itself hold `-`, as in `HDMI-A`) and its card is `<card>`.
pub proof fn lemma_connector_name_parts(card: Seq<char>, ty: Seq<char>, index: Seq<char>)
    requires
        !card.contains('-'),
        all_ascii_digits(index),
    ensures
        connector_type_of(card + seq!['-'] + ty + seq!['-'] + index) == ty,
        card_name_of(card + seq!['-'] + ty + seq!['-'] + index) == card,
        is_connector_name_spec(card + seq!['-'] + ty + seq!['-'] + index),
{
    let name = card + seq!['-'] + ty + seq!['-'] + index;
    let c = card.len() as int;
    assert forall|k: int| 0 <= k < c implies #[trigger] name[k] != '-' by {
        assert(name[k] == card[k]);
        if card[k] == '-' {
            assert(card.contains('-'));
        }
    }
    crate::text::lemma_first_index_at(name, '-', c);
    let rest = name.skip(c + 1);
    assert(rest =~= ty + seq!['-'] + index);
    let q = ty.len() as int;
    assert forall|k: int| q < k < rest.len() implies #[trigger] rest[k] != '-' by {
        assert(rest[k] == index[k - q - 1]);
    }
    crate::text::lemma_last_index_at(rest, '-', q);
    assert(rest.skip(q + 1) =~= index);
    assert(rest.take(q) =~= ty);
    assert(name.take(c) =~= card);
}

/// Every listed mode is a non-empty single line that neither begins nor ends with
/// white space.
pub proof fn lemma_modes_are_clean(s: Seq<char>)
    ensures
        forall|k: int|
            0 <= k < mode_list(s).len() ==> {
                let m = #[trigger] mode_list(s)[k];
                &&& m.len() > 0
                &&& !m.contains('\n')
                &&& !crate::text::is_white_space(m[0])
                &&& !crate::text::is_white_space(m.last())
            },
    decreases s.len(),
{
    crate::text::lemma_index_bounds(s, '\n');
    let p = first_index(s, '\n');
    let line = trimmed(s.take(p));
    let r = crate::text::lemma_trimmed_piece(s.take(p));
    if p < s.len() {
        lemma_modes_are_clean(s.skip(p + 1));
    }
    let rest = if 0 <= p < s.len() {
        mode_list(s.skip(p + 1))
    } else {
        Seq::empty()
    };
    assert(!line.contains('\n')) by {
        if line.contains('\n') {
            let k = choose|k: int| 0 <= k < line.len() && line[k] == '\n';
            assert(line[k] == s[r.0 + k]);
        }
    }
    assert forall|k: int| 0 <= k < mode_list(s).len() implies {
        let m = #[trigger] mode_list(s)[k];
        &&& m.len() > 0
        &&& !m.contains('\n')
        &&& !crate::text::is_white_space(m[0])
        &&& !crate::text::is_white_space(m.last())
    } by {
        if line.len() > 0 {
            if k > 0 {
                assert(mode_list(s)[k] == rest[k - 1]);
            }
        } else {
            assert(mode_list(s)[k] == rest[k]);
        }
    }
}

} // verus!

verus! {

/// Connectors sorted by name are in code-point order: of two connectors whose
/// names first differ at position `k`, the earlier has the smaller code point
/// there, and a name that is a proper prefix of another comes first.
pub proof fn lemma_sorted_names_by_code_point(s: Seq<ConnectorInfo>, i: int, j: int, k: int)
    requires
        sorted_by_name(s),
        0 <= i < j < s.len(),
        0 <= k <= s[i].name@.len(),
        k <= s[j].name@.len(),
        s[i].name@.take(k) == s[j].name@.take(k),
    ensures
        k < s[i].name@.len() && k < s[j].name@.len() && s[i].name@[k] != s[j].name@[k] ==> (
        s[i].name@[k] as int) < (s[j].name@[k] as int),
        k == s[j].name@.len() && k < s[i].name@.len() ==> false,
{
    let a = s[i].name@;
    let b = s[j].name@;
    assert(!lex_lt(b, a));
    if k < a.len() && k < b.len() && a[k] != b[k] {
        crate::text::lemma_lex_first_difference(b, a, k);
    }
    if k == b.len() && k < a.len() {
        assert(a.take(b.len() as int) =~= b.take(k));
        assert(b.take(k) =~= b);
        crate::text::lemma_lex_prefix(b, a);
    }
}

/// A connector keeps any EDID blob that is not empty, whatever its length (a base
/// block and any number of extension blocks), and has none where the blob is
/// empty or could not be read.
pub proof fn lemma_edid_blob_kept(
    name: Seq<char>,
    status: Seq<char>,
    enabled: Option<Seq<char>>,
    dpms: Option<Seq<char>>,
    modes: Option<Seq<char>>,
    edid: Option<Seq<u8>>,
)
    ensures
        edid is Some && edid->0.len() > 0 ==> connector_of(
            name,
            status,
            enabled,
            dpms,
            modes,
            edid,
        ).edid_raw == Some(edid->0),
        (edid is None || edid->0.len() == 0) ==> connector_of(
            name,
            status,
            enabled,
            dpms,
            modes,
            edid,
        ).edid_raw is None,
{
}

} // verus!
