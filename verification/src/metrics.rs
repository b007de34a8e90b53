//! The metrics the proxy accounts and exposes.
//!
//! Three families, labelled by consumer: a monotonic byte counter, a gauge
//! of live connections, and a monotonic counter of denied admissions.  The
//! model is one point per consumer key, holding the labels last observed
//! for it; rendering produces the text exposition format, one line per
//! point and family.

use vstd::prelude::*;
use vstd::slice::slice_to_vec;

use crate::table::{Keyed, Table};
use crate::util::{dec_digits, push_char, u64_to_dec};

verus! {

/// The labels every metric line carries.
pub struct Labels {
    pub consumer: String,
    pub namespace: String,
    pub instance: String,
    pub tier: String,
}

/// The mathematical value of a label set.
#[verifier::ext_equal]
pub ghost struct LabelsV {
    pub consumer: Seq<char>,
    pub namespace: Seq<char>,
    pub instance: Seq<char>,
    pub tier: Seq<char>,
}

impl View for Labels {
    type V = LabelsV;

    open spec fn view(&self) -> LabelsV {
        LabelsV {
            consumer: self.consumer@,
            namespace: self.namespace@,
            instance: self.instance@,
            tier: self.tier@,
        }
    }
}

impl Labels {
    /// An independent copy with the same value.
    pub fn duplicate(&self) -> (r: Labels)
        ensures
            r@ == self@,
    {
        let r = Labels {
            consumer: self.consumer.clone(),
            namespace: self.namespace.clone(),
            instance: self.instance.clone(),
            tier: self.tier.clone(),
        };
        assert(r@ =~= self@);
        r
    }
}

/// One consumer's metrics, filed under its auth key.
pub struct MetricPoint {
    pub key: Vec<u8>,
    pub labels: Labels,
    pub total_packages_bytes: u64,
    pub total_connections: u64,
    pub total_connections_denied: u64,
}

/// The mathematical value of a metric point.
#[verifier::ext_equal]
pub ghost struct MetricPointV {
    pub key: Seq<u8>,
    pub labels: LabelsV,
    pub total_packages_bytes: u64,
    pub total_connections: u64,
    pub total_connections_denied: u64,
}

impl View for MetricPoint {
    type V = MetricPointV;

    open spec fn view(&self) -> MetricPointV {
        MetricPointV {
            key: self.key@,
            labels: self.labels@,
            total_packages_bytes: self.total_packages_bytes,
            total_connections: self.total_connections,
            total_connections_denied: self.total_connections_denied,
        }
    }
}

impl Keyed for MetricPoint {
    open spec fn skey(&self) -> Seq<u8> {
        self.key@
    }

    open spec fn val_inv(&self) -> bool {
        true
    }

    fn key_bytes(&self) -> (r: &[u8]) {
        self.key.as_slice()
    }
}

/// Addition that stops at the counter's ceiling instead of wrapping.
pub open spec fn sat_add(a: u64, b: u64) -> u64 {
    if a + b <= u64::MAX {
        (a + b) as u64
    } else {
        u64::MAX
    }
}

/// The point on file for `k`, under fresh labels; a missing point counts
/// from zero.
pub open spec fn point_at(m: Map<Seq<u8>, MetricPointV>, k: Seq<u8>, lab: LabelsV) -> MetricPointV {
    if m.contains_key(k) {
        MetricPointV { labels: lab, ..m[k] }
    } else {
        MetricPointV {
            key: k,
            labels: lab,
            total_packages_bytes: 0,
            total_connections: 0,
            total_connections_denied: 0,
        }
    }
}

/// The gauge of live connections on file for `k`; zero when absent.
pub open spec fn gauge_of(m: Map<Seq<u8>, MetricPointV>, k: Seq<u8>) -> u64 {
    if m.contains_key(k) {
        m[k].total_connections
    } else {
        0
    }
}

/// The denied-connections counter on file for `k`; zero when absent.
pub open spec fn denied_of(m: Map<Seq<u8>, MetricPointV>, k: Seq<u8>) -> u64 {
    if m.contains_key(k) {
        m[k].total_connections_denied
    } else {
        0
    }
}

/// The byte counter on file for `k`; zero when absent.
pub open spec fn bytes_of(m: Map<Seq<u8>, MetricPointV>, k: Seq<u8>) -> u64 {
    if m.contains_key(k) {
        m[k].total_packages_bytes
    } else {
        0
    }
}

/// Counters never shrink, and the gauge moves by at most the one step the
/// operation says: what every metrics operation preserves.
pub open spec fn denied_nondecreasing(
    old_m: Map<Seq<u8>, MetricPointV>,
    new_m: Map<Seq<u8>, MetricPointV>,
) -> bool {
    forall|k: Seq<u8>| denied_of(old_m, k) <= #[trigger] denied_of(new_m, k)
}

/// The metrics a proxy process accounts.
pub struct Metrics {
    pub points: Table<MetricPoint>,
}

impl View for Metrics {
    type V = Map<Seq<u8>, MetricPointV>;

    open spec fn view(&self) -> Map<Seq<u8>, MetricPointV> {
        self.points@
    }
}

impl Metrics {
    pub open spec fn wf(&self) -> bool {
        self.points.wf()
    }

    pub fn new() -> (m: Metrics)
        ensures
            m.wf(),
            m@ == Map::<Seq<u8>, MetricPointV>::empty(),
    {
        Metrics { points: Table::new() }
    }

    /// Records `value` forwarded bytes for the consumer.
    pub fn count_total_packages_bytes(&mut self, key: &[u8], labels: &Labels, value: u64)
        requires
            old(self).wf(),
        ensures
            final(self).wf(),
            final(self)@ == old(self)@.insert(
                key@,
                (MetricPointV {
                    total_packages_bytes: sat_add(
                        point_at(old(self)@, key@, labels@).total_packages_bytes,
                        value,
                    ),
                    ..point_at(old(self)@, key@, labels@)
                }),
            ),
            denied_nondecreasing(old(self)@, final(self)@),
    {
        let mut p = self.take_point(key, labels);
        if value <= u64::MAX - p.total_packages_bytes {
            p.total_packages_bytes = p.total_packages_bytes + value;
        } else {
            p.total_packages_bytes = u64::MAX;
        }
        let ghost pv = p@;
        self.points.insert(p);
        assert(final(self)@ =~= old(self)@.insert(key@, pv));
    }

    /// Moves the consumer's live-connection gauge up one.
    pub fn inc_total_connections(&mut self, key: &[u8], labels: &Labels)
        requires
            old(self).wf(),
        ensures
            final(self).wf(),
            final(self)@ == old(self)@.insert(
                key@,
                (MetricPointV {
                    total_connections: sat_add(
                        point_at(old(self)@, key@, labels@).total_connections,
                        1,
                    ),
                    ..point_at(old(self)@, key@, labels@)
                }),
            ),
            denied_nondecreasing(old(self)@, final(self)@),
    {
        let mut p = self.take_point(key, labels);
        if p.total_connections < u64::MAX {
            p.total_connections = p.total_connections + 1;
        }
        let ghost pv = p@;
        self.points.insert(p);
        assert(final(self)@ =~= old(self)@.insert(key@, pv));
    }

    /// Moves the consumer's live-connection gauge down one; never below
    /// zero.
    pub fn dec_total_connections(&mut self, key: &[u8], labels: &Labels)
        requires
            old(self).wf(),
        ensures
            final(self).wf(),
            final(self)@ == old(self)@.insert(
                key@,
                (MetricPointV {
                    total_connections: if point_at(
                        old(self)@,
                        key@,
                        labels@,
                    ).total_connections > 0 {
                        (point_at(old(self)@, key@, labels@).total_connections - 1) as u64
                    } else {
                        0
                    },
                    ..point_at(old(self)@, key@, labels@)
                }),
            ),
            denied_nondecreasing(old(self)@, final(self)@),
    {
        let mut p = self.take_point(key, labels);
        if p.total_connections > 0 {
            p.total_connections = p.total_connections - 1;
        }
        let ghost pv = p@;
        self.points.insert(p);
        assert(final(self)@ =~= old(self)@.insert(key@, pv));
    }

    /// Counts one denied admission for the consumer.
    pub fn count_total_connections_denied(&mut self, key: &[u8], labels: &Labels)
        requires
            old(self).wf(),
        ensures
            final(self).wf(),
            final(self)@ == old(self)@.insert(
                key@,
                (MetricPointV {
                    total_connections_denied: sat_add(
                        point_at(old(self)@, key@, labels@).total_connections_denied,
                        1,
                    ),
                    ..point_at(old(self)@, key@, labels@)
                }),
            ),
            denied_of(final(self)@, key@) == sat_add(denied_of(old(self)@, key@), 1),
            denied_nondecreasing(old(self)@, final(self)@),
    {
        let mut p = self.take_point(key, labels);
        if p.total_connections_denied < u64::MAX {
            p.total_connections_denied = p.total_connections_denied + 1;
        }
        let ghost pv = p@;
        self.points.insert(p);
        assert(final(self)@ =~= old(self)@.insert(key@, pv));
    }

    /// Renders every point in the text exposition format, one line per
    /// family and point, in storage order.
    pub fn render(&self) -> (r: String)
        ensures
            r@ == rendered(self.points.seq()),
    {
        let mut out = String::new();
        append_family(&mut out, &self.points, MetricFamily::Bytes);
        append_family(&mut out, &self.points, MetricFamily::Connections);
        append_family(&mut out, &self.points, MetricFamily::Denied);
        assert(out@ =~= rendered(self.points.seq()));
        out
    }

    /// Takes the consumer's point out of the table, under fresh labels.
    fn take_point(&mut self, key: &[u8], labels: &Labels) -> (p: MetricPoint)
        requires
            old(self).wf(),
        ensures
            final(self).wf(),
            p@ == point_at(old(self)@, key@, labels@),
            p.skey() == key@,
            final(self)@ == old(self)@.remove(key@),
    {
        match self.points.remove(key) {
            Some(mut p) => {
                p.labels = labels.duplicate();
                assert(p@ =~= point_at(old(self)@, key@, labels@));
                p
            },
            None => {
                let p = MetricPoint {
                    key: slice_to_vec(key),
                    labels: labels.duplicate(),
                    total_packages_bytes: 0,
                    total_connections: 0,
                    total_connections_denied: 0,
                };
                assert(p@ =~= point_at(old(self)@, key@, labels@));
                p
            },
        }
    }
}

/// How one character of a label value is escaped on a metric line.
pub open spec fn esc_char(c: char) -> Seq<char> {
    if c == '\\' {
        seq!['\\', '\\']
    } else if c == '"' {
        seq!['\\', '"']
    } else if c == '\n' {
        seq!['\\', 'n']
    } else {
        seq![c]
    }
}

/// A label value as it appears between quotes on a metric line.
pub open spec fn esc(s: Seq<char>) -> Seq<char>
    decreases s.len(),
{
    if s.len() == 0 {
        Seq::empty()
    } else {
        esc(s.drop_last()) + esc_char(s.last())
    }
}

/// Appends the escaped label value.
fn append_escaped(out: &mut String, s: &String)
    ensures
        final(out)@ == old(out)@ + esc(s@),
{
    let t = s.as_str();
    let n = t.unicode_len();
    let mut i: usize = 0;
    while i < n
        invariant
            0 <= i <= n,
            n == t@.len(),
            t@ == s@,
            out@ == old(out)@ + esc(t@.subrange(0, i as int)),
        decreases n - i,
    {
        let c = t.get_char(i);
        if c == '\\' {
            push_char(out, '\\');
            push_char(out, '\\');
        } else if c == '"' {
            push_char(out, '\\');
            push_char(out, '"');
        } else if c == '\n' {
            push_char(out, '\\');
            push_char(out, 'n');
        } else {
            push_char(out, c);
        }
        proof {
            assert(t@.subrange(0, i + 1 as int).drop_last() =~= t@.subrange(0, i as int));
            assert(out@ =~= old(out)@ + esc(t@.subrange(0, i + 1 as int)));
        }
        i = i + 1;
    }
    assert(t@.subrange(0, n as int) =~= t@);
}

/// One line of the exposition text: the family name, the labels, the
/// value, and a line break.
pub open spec fn render_line(name: Seq<char>, l: LabelsV, value: u64) -> Seq<char> {
    name + "{consumer=\""@ + esc(l.consumer) + "\",namespace=\""@ + esc(l.namespace)
        + "\",instance=\""@ + esc(l.instance) + "\",tier=\""@ + esc(l.tier) + "\"} "@ + dec_digits(
        value as nat,
    ) + seq!['\n']
}

/// Appends one metric line.
fn append_line(out: &mut String, name: &str, labels: &Labels, value: u64)
    ensures
        final(out)@ == old(out)@ + render_line(name@, labels@, value),
{
    out.append(name);
    out.append("{consumer=\"");
    append_escaped(out, &labels.consumer);
    out.append("\",namespace=\"");
    append_escaped(out, &labels.namespace);
    out.append("\",instance=\"");
    append_escaped(out, &labels.instance);
    out.append("\",tier=\"");
    append_escaped(out, &labels.tier);
    out.append("\"} ");
    let d = u64_to_dec(value);
    out.append(d.as_str());
    push_char(out, '\n');
    assert(out@ =~= old(out)@ + render_line(name@, labels@, value));
}

/// The three metric families.
#[derive(Clone, Copy, PartialEq, Eq, Structural, Debug)]
pub enum MetricFamily {
    Bytes,
    Connections,
    Denied,
}

pub open spec fn family_name(f: MetricFamily) -> Seq<char> {
    match f {
        MetricFamily::Bytes => "node_proxy_total_packages_bytes"@,
        MetricFamily::Connections => "node_proxy_total_connections"@,
        MetricFamily::Denied => "node_proxy_total_connections_denied"@,
    }
}

pub open spec fn family_value(f: MetricFamily, p: MetricPointV) -> u64 {
    match f {
        MetricFamily::Bytes => p.total_packages_bytes,
        MetricFamily::Connections => p.total_connections,
        MetricFamily::Denied => p.total_connections_denied,
    }
}

/// One family's lines, one per point, in storage order.
pub open spec fn render_family(f: MetricFamily, ps: Seq<MetricPoint>) -> Seq<char>
    decreases ps.len(),
{
    if ps.len() == 0 {
        Seq::empty()
    } else {
        render_family(f, ps.drop_last()) + render_line(
            family_name(f),
            ps.last()@.labels,
            family_value(f, ps.last()@),
        )
    }
}

/// The whole exposition text: the byte counters, then the gauges, then the
/// denial counters.
pub open spec fn rendered(ps: Seq<MetricPoint>) -> Seq<char> {
    render_family(MetricFamily::Bytes, ps) + render_family(MetricFamily::Connections, ps)
        + render_family(MetricFamily::Denied, ps)
}

/// Appends one family's lines.
fn append_family(out: &mut String, points: &Table<MetricPoint>, fam: MetricFamily)
    ensures
        final(out)@ == old(out)@ + render_family(fam, points.seq()),
{
    let n = points.len();
    let mut i: usize = 0;
    while i < n
        invariant
            0 <= i <= n,
            n == points.seq().len(),
            out@ == old(out)@ + render_family(fam, points.seq().subrange(0, i as int)),
        decreases n - i,
    {
        let p = points.nth(i);
        let name: &str = match fam {
            MetricFamily::Bytes => "node_proxy_total_packages_bytes",
            MetricFamily::Connections => "node_proxy_total_connections",
            MetricFamily::Denied => "node_proxy_total_connections_denied",
        };
        let value: u64 = match fam {
            MetricFamily::Bytes => p.total_packages_bytes,
            MetricFamily::Connections => p.total_connections,
            MetricFamily::Denied => p.total_connections_denied,
        };
        append_line(out, name, &p.labels, value);
        proof {
            assert(points.seq().subrange(0, i + 1 as int).drop_last() =~= points.seq().subrange(
                0,
                i as int,
            ));
            assert(points.seq().subrange(0, i + 1 as int).last() == points.seq()[i as int]);
            assert(out@ =~= old(out)@ + render_family(fam, points.seq().subrange(0, i + 1 as int)));
        }
        i = i + 1;
    }
    assert(points.seq().subrange(0, n as int) =~= points.seq());
}

} // verus!
