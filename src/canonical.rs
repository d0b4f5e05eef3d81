use vstd::prelude::*;

use crate::config::{
    lemma_find_from_bounds, apply_line, is_blank_or_comment, load, load_from, names_of, split_line, valid_name, Config,
    ConfigView, initial_view,
};
use crate::text::{digits_value, find, find_from, is_digit, is_ws, trim, trim_back, trim_front, unsigned_value, unsigned_digits};

verus! {

/// The character of a decimal digit.
pub open spec fn digit_char(d: nat) -> char {
    if d == 0 { '0' } else if d == 1 { '1' } else if d == 2 { '2' } else if d == 3 { '3' }
    else if d == 4 { '4' } else if d == 5 { '5' } else if d == 6 { '6' } else if d == 7 { '7' }
    else if d == 8 { '8' } else { '9' }
}

/// The decimal text of `n`, without leading zeros.
pub open spec fn dec(n: nat) -> Seq<char>
    decreases n,
{
    if n < 10 {
        seq![digit_char(n)]
    } else {
        dec(n / 10).push(digit_char(n % 10))
    }
}

/// One `key=value` line.
pub open spec fn setting_line(key: Seq<char>, value: Seq<char>) -> Seq<char> {
    key + seq!['='] + value + seq!['\n']
}

/// One `ConnectTo` line for each peer, in order.
pub open spec fn connect_lines(v: Seq<String>) -> Seq<char>
    decreases v.len(),
{
    if v.len() == 0 {
        Seq::empty()
    } else {
        setting_line("ConnectTo"@, v[0]@) + connect_lines(v.drop_first())
    }
}

/// The canonical text of a configuration: `Name`, `LogLevel`, `Port` when set, then
/// one `ConnectTo` per peer, one `key=value` per line.
pub open spec fn formatted(c: Config) -> Seq<char> {
    setting_line("Name"@, c.name@) + setting_line("LogLevel"@, dec(c.log_level as nat)) + (
    match c.port {
        Some(p) => setting_line("Port"@, dec(p as nat)),
        None => Seq::empty(),
    }) + connect_lines(c.connect_to@)
}

/// A value that a line can carry unchanged: no `#`, no line break, no white space
/// at either end.
pub open spec fn representable(v: Seq<char>) -> bool {
    &&& v.len() > 0 ==> !is_ws(v[0]) && !is_ws(v.last())
    &&& forall|i: int| 0 <= i < v.len() ==> #[trigger] v[i] != '#' && v[i] != '\n'
}

/// Characters that stand alone in a line: no white space, `=`, `#` or line break.
pub open spec fn plain(s: Seq<char>) -> bool {
    forall|i: int|
        0 <= i < s.len() ==> !is_ws(#[trigger] s[i]) && s[i] != '=' && s[i] != '#' && s[i] != '\n'
}

proof fn lemma_plain_trimmed(s: Seq<char>)
    requires
        plain(s),
    ensures
        trim(s) == s,
        representable(s),
{
    assert(trim_front(s) == s);
    assert(trim_back(s) == s);
}

proof fn lemma_find_at(s: Seq<char>, c: char, from: int, at: int)
    requires
        0 <= from <= at <= s.len(),
        at < s.len() ==> s[at] == c,
        forall|j: int| from <= j < at ==> s[j] != c,
    ensures
        find_from(s, c, from) == at,
    decreases at - from,
{
    if from < at {
        lemma_find_at(s, c, from + 1, at);
    }
}

proof fn lemma_dec(n: nat)
    ensures
        dec(n).len() > 0,
        plain(dec(n)),
        forall|i: int| 0 <= i < dec(n).len() ==> is_digit(#[trigger] dec(n)[i]),
        digits_value(dec(n)) == n,
    decreases n,
{
    let d = n % 10;
    assert(digit_char(d) as nat - '0' as nat == d && '0' <= digit_char(d) <= '9');
    if n >= 10 {
        lemma_dec(n / 10);
        let s = dec(n);
        assert(s.drop_last() =~= dec(n / 10));
        assert(n == (n / 10) * 10 + d);
        assert(s.last() == digit_char(d));
        assert(digits_value(s) == digits_value(s.drop_last()) * 10 + (s.last() as nat - '0' as nat) as nat);
    } else {
        let s = dec(n);
        assert(s.drop_last() =~= Seq::<char>::empty());
        assert(s.last() == digit_char(d));
        assert(digits_value(s) == digits_value(s.drop_last()) * 10 + (s.last() as nat - '0' as nat) as nat);
    }
}

proof fn lemma_dec_value(n: nat, max: nat)
    requires
        n <= max,
    ensures
        unsigned_value(dec(n), max) == Some(n),
{
    lemma_dec(n);
    assert(unsigned_digits(dec(n)) == dec(n));
}

proof fn lemma_keys()
    ensures
        plain("Name"@),
        plain("LogLevel"@),
        plain("Port"@),
        plain("ConnectTo"@),
        "Name"@.len() == 4,
        "LogLevel"@.len() == 8,
        "Port"@.len() == 4,
        "ConnectTo"@.len() == 9,
        "Name"@[0] == 'N',
        "Port"@[0] == 'P',
{
    reveal_strlit("Name");
    reveal_strlit("LogLevel");
    reveal_strlit("Port");
    reveal_strlit("ConnectTo");
}

/// A `key=value` line at `start` is read as that key and value.
proof fn lemma_line_step(t: Seq<char>, start: int, line_number: usize, c: ConfigView, key: Seq<char>, value: Seq<char>)
    requires
        0 <= start,
        start + setting_line(key, value).len() <= t.len(),
        t.subrange(start, start + setting_line(key, value).len()) == setting_line(key, value),
        key.len() > 0,
        plain(key),
        representable(value),
        line_number < usize::MAX,
    ensures
        load_from(t, start, line_number, c) == match apply_line(c, key, value, line_number) {
            Err(e) => Err(e),
            Ok(c2) => load_from(t, start + setting_line(key, value).len(), (line_number + 1) as usize, c2),
        },
{
    let line = setting_line(key, value);
    let body = key + seq!['='] + value;
    let nl = start + body.len();
    assert forall|j: int| start <= j < nl implies t[j] != '\n' by {
        assert(t[j] == line[j - start]);
        if j - start < key.len() {
            assert(line[j - start] == key[j - start]);
        } else if j - start > key.len() {
            assert(line[j - start] == value[j - start - key.len() - 1]);
        }
    }
    assert(t[nl] == line[body.len() as int]);
    lemma_find_at(t, '\n', start, nl);
    assert(t.subrange(start, nl) =~= body);
    // the line needs no trimming
    assert(body[0] == key[0]);
    if value.len() > 0 {
        assert(body.last() == value.last());
    }
    assert(trim_front(value) == value);
    assert(trim_back(value) == value);
    assert(trim_front(body) == body);
    assert(trim_back(body) == body);
    assert(!is_blank_or_comment(body));
    assert forall|j: int| 0 <= j < key.len() implies body[j] != '=' by {
        assert(body[j] == key[j]);
    }
    lemma_find_at(body, '=', 0, key.len() as int);
    assert(body.subrange(0, key.len() as int) =~= key);
    assert(body.subrange(key.len() as int + 1, body.len() as int) =~= value);
    lemma_plain_trimmed(key);
    lemma_find_at(value, '#', 0, value.len() as int);
    assert(value.subrange(0, value.len() as int) =~= value);
    assert(split_line(body, line_number) == Ok::<_, crate::config::ConfigError>((key, value)));
}

proof fn lemma_connect_lines(t: Seq<char>, s0: int, n: usize, cv: ConfigView, v: Seq<String>)
    requires
        0 <= s0,
        s0 + connect_lines(v).len() <= t.len(),
        t.subrange(s0, s0 + connect_lines(v).len()) == connect_lines(v),
        forall|i: int| 0 <= i < v.len() ==> representable(#[trigger] v[i]@),
        n + v.len() < usize::MAX,
    ensures
        load_from(t, s0, n, cv) == load_from(
            t,
            s0 + connect_lines(v).len(),
            (n + v.len()) as usize,
            ConfigView { connect_to: cv.connect_to + names_of(v), ..cv },
        ),
    decreases v.len(),
{
    if v.len() == 0 {
        assert(cv.connect_to + names_of(v) =~= cv.connect_to);
        assert(ConfigView { connect_to: cv.connect_to + names_of(v), ..cv } == cv);
    } else {
        let line = setting_line("ConnectTo"@, v[0]@);
        let rest = v.drop_first();
        let all = connect_lines(v);
        assert(all == line + connect_lines(rest));
        assert(t.subrange(s0, s0 + line.len()) =~= line) by {
            assert(t.subrange(s0, s0 + line.len()) =~= all.subrange(0, line.len() as int));
        }
        assert(t.subrange(s0 + line.len(), s0 + line.len() + connect_lines(rest).len()) =~= connect_lines(rest)) by {
            assert(t.subrange(s0 + line.len(), s0 + line.len() + connect_lines(rest).len()) =~= all.subrange(line.len() as int, all.len() as int));
        }
        lemma_keys();
        assert(v[0]@ == v[0]@);
        lemma_line_step(t, s0, n, cv, "ConnectTo"@, v[0]@);
        let cv1 = ConfigView { connect_to: cv.connect_to.insert(v[0]@), ..cv };
        assert(apply_line(cv, "ConnectTo"@, v[0]@, n) == Ok::<_, crate::config::ConfigError>(cv1));
        assert forall|i: int| 0 <= i < rest.len() implies representable(#[trigger] rest[i]@) by {
            assert(rest[i] == v[i + 1]);
        }
        lemma_connect_lines(t, s0 + line.len(), (n + 1) as usize, cv1, rest);
        assert(cv1.connect_to + names_of(rest) =~= cv.connect_to + names_of(v)) by {
            assert forall|x: Seq<char>| (cv1.connect_to + names_of(rest)).contains(x) <==> (cv.connect_to + names_of(v)).contains(x) by {
                if names_of(rest).contains(x) {
                    let k = choose|k: int| 0 <= k < rest.len() && #[trigger] rest[k]@ == x;
                    assert(v[k + 1]@ == x);
                }
                if names_of(v).contains(x) {
                    let k = choose|k: int| 0 <= k < v.len() && #[trigger] v[k]@ == x;
                    if k > 0 {
                        assert(rest[k - 1]@ == x);
                    }
                }
                if x == v[0]@ {
                    assert(names_of(v).contains(x));
                }
            }
        }
    }
}

/// Loading the canonical text of a configuration gives the configuration back, for
/// every configuration with a valid name and peers that a line can carry.
pub proof fn lemma_format_round_trip(c: Config)
    requires
        c.wf(),
        valid_name(c.name@),
        forall|i: int| 0 <= i < c.connect_to@.len() ==> representable(#[trigger] c.connect_to@[i]@),
        c.connect_to@.len() + 3 < usize::MAX,
    ensures
        load(formatted(c)) == Ok::<_, crate::config::ConfigError>(c@),
{
    lemma_keys();
    let t = formatted(c);
    let a = setting_line("Name"@, c.name@);
    let b = setting_line("LogLevel"@, dec(c.log_level as nat));
    let p = match c.port {
        Some(p) => setting_line("Port"@, dec(p as nat)),
        None => Seq::empty(),
    };
    let cl = connect_lines(c.connect_to@);
    assert(t == a + b + p + cl);
    assert(t.subrange(0, a.len() as int) =~= a);
    assert(t.subrange(a.len() as int, (a.len() + b.len()) as int) =~= b);
    let s0: int = (a.len() + b.len() + p.len()) as int;
    assert(t.subrange((a.len() + b.len()) as int, s0) =~= p);
    assert(t.subrange(s0, s0 + cl.len()) =~= cl);
    assert(plain(c.name@));
    assert(representable(c.name@));
    lemma_dec(c.log_level as nat);
    lemma_plain_trimmed(dec(c.log_level as nat));
    lemma_dec_value(c.log_level as nat, 255);
    let v0 = initial_view();
    lemma_line_step(t, 0, 0, v0, "Name"@, c.name@);
    let v1 = ConfigView { name: c.name@, ..v0 };
    assert(apply_line(v0, "Name"@, c.name@, 0) == Ok::<_, crate::config::ConfigError>(v1));
    lemma_line_step(t, a.len() as int, 1, v1, "LogLevel"@, dec(c.log_level as nat));
    let v2 = ConfigView { log_level: c.log_level, ..v1 };
    assert(apply_line(v1, "LogLevel"@, dec(c.log_level as nat), 1) == Ok::<_, crate::config::ConfigError>(v2));
    let v3 = ConfigView { port: c.port, ..v2 };
    let n3: usize = if c.port is Some { 3 } else { 2 };
    match c.port {
        Some(port) => {
            lemma_dec(port as nat);
            lemma_plain_trimmed(dec(port as nat));
            lemma_dec_value(port as nat, 65535);
            assert("Port"@ != "Name"@) by {
                assert("Port"@[0] != "Name"@[0]);
            }
            lemma_line_step(t, (a.len() + b.len()) as int, 2, v2, "Port"@, dec(port as nat));
            assert(apply_line(v2, "Port"@, dec(port as nat), 2) == Ok::<_, crate::config::ConfigError>(v3));
        },
        None => {
            assert(v3 == v2);
        },
    }
    assert(load_from(t, 0, 0, v0) == load_from(t, s0, n3, v3));
    lemma_connect_lines(t, s0, n3, v3, c.connect_to@);
    let v4 = ConfigView { connect_to: v3.connect_to + names_of(c.connect_to@), ..v3 };
    assert(v4.connect_to =~= names_of(c.connect_to@));
    assert(v4 == c@);
    assert(s0 + cl.len() == t.len());
}

proof fn lemma_connect_lines_push(v: Seq<String>, x: String)
    ensures
        connect_lines(v.push(x)) == connect_lines(v) + setting_line("ConnectTo"@, x@),
    decreases v.len(),
{
    if v.len() == 0 {
        assert(v.push(x).drop_first() =~= Seq::<String>::empty());
        assert(v.push(x)[0] == x);
        assert(connect_lines(v.push(x).drop_first()) == Seq::<char>::empty());
        assert(connect_lines(v) == Seq::<char>::empty());
        assert(connect_lines(v.push(x)) =~= connect_lines(v) + setting_line("ConnectTo"@, x@));
    } else {
        assert(v.push(x).drop_first() =~= v.drop_first().push(x));
        assert(v.push(x)[0] == v[0]);
        lemma_connect_lines_push(v.drop_first(), x);
        assert(connect_lines(v.push(x)) =~= connect_lines(v) + setting_line("ConnectTo"@, x@));
    }
}

/// The text of one decimal digit.
fn digit_text(d: u32) -> (r: &'static str)
    requires
        d < 10,
    ensures
        r@ == seq![digit_char(d as nat)],
{
    proof {
        reveal_strlit("0");
        reveal_strlit("1");
        reveal_strlit("2");
        reveal_strlit("3");
        reveal_strlit("4");
        reveal_strlit("5");
        reveal_strlit("6");
        reveal_strlit("7");
        reveal_strlit("8");
        reveal_strlit("9");
    }
    let r = if d == 0 { "0" } else if d == 1 { "1" } else if d == 2 { "2" } else if d == 3 { "3" }
    else if d == 4 { "4" } else if d == 5 { "5" } else if d == 6 { "6" } else if d == 7 { "7" }
    else if d == 8 { "8" } else { "9" };
    assert(r@ =~= seq![digit_char(d as nat)]);
    r
}

/// Appends the decimal text of `n`.
fn write_decimal(out: &mut String, n: u32)
    ensures
        final(out)@ == old(out)@ + dec(n as nat),
    decreases n,
{
    if n >= 10 {
        write_decimal(out, n / 10);
    }
    out.append(digit_text(n % 10));
    assert(final(out)@ =~= old(out)@ + dec(n as nat));
}

/// Appends one `key=value` line.
fn write_setting(out: &mut String, key: &str, value: &str)
    ensures
        final(out)@ == old(out)@ + setting_line(key@, value@),
{
    proof {
        reveal_strlit("=");
        reveal_strlit("\n");
    }
    out.append(key);
    out.append("=");
    out.append(value);
    out.append("\n");
    assert(final(out)@ =~= old(out)@ + setting_line(key@, value@));
}

/// The canonical text of a configuration, which loads back to the same settings.
pub fn format_config(c: &Config) -> (r: String)
    ensures
        r@ == formatted(*c),
{
    let mut out = String::new();
    write_setting(&mut out, "Name", c.name.as_str());
    let mut level = String::new();
    write_decimal(&mut level, c.log_level as u32);
    write_setting(&mut out, "LogLevel", level.as_str());
    match c.port {
        Some(p) => {
            let mut port = String::new();
            write_decimal(&mut port, p as u32);
            write_setting(&mut out, "Port", port.as_str());
        },
        None => {},
    }
    let ghost head = out@;
    assert(head =~= setting_line("Name"@, c.name@) + setting_line("LogLevel"@, dec(c.log_level as nat)) + (
    match c.port {
        Some(p) => setting_line("Port"@, dec(p as nat)),
        None => Seq::empty(),
    }));
    let n = c.connect_to.len();
    let mut i: usize = 0;
    assert(c.connect_to@.subrange(0, 0) =~= Seq::<String>::empty());
    assert(head + connect_lines(Seq::<String>::empty()) =~= head);
    while i < n
        invariant
            n == c.connect_to@.len(),
            i <= n,
            out@ == head + connect_lines(c.connect_to@.subrange(0, i as int)),
        decreases n - i,
    {
        write_setting(&mut out, "ConnectTo", c.connect_to[i].as_str());
        proof {
            let v = c.connect_to@.subrange(0, i as int);
            assert(c.connect_to@.subrange(0, i + 1) =~= v.push(c.connect_to@[i as int]));
            lemma_connect_lines_push(v, c.connect_to@[i as int]);
            assert(out@ =~= head + connect_lines(c.connect_to@.subrange(0, i + 1)));
        }
        i = i + 1;
    }
    assert(c.connect_to@.subrange(0, n as int) =~= c.connect_to@);
    out
}

proof fn lemma_find_before(s: Seq<char>, c: char, from: int, j: int)
    requires
        0 <= from <= j < find_from(s, c, from),
    ensures
        s[j] != c,
    decreases j - from,
{
    if from < j {
        lemma_find_before(s, c, from + 1, j);
    }
}

proof fn lemma_trim_front_sub(s: Seq<char>) -> (k: int)
    ensures
        0 <= k <= s.len(),
        trim_front(s) == s.subrange(k, s.len() as int),
        k < s.len() ==> !is_ws(s[k]),
    decreases s.len(),
{
    if s.len() > 0 && is_ws(s[0]) {
        let k1 = lemma_trim_front_sub(s.drop_first());
        assert(s.drop_first().subrange(k1, s.drop_first().len() as int) =~= s.subrange(k1 + 1, s.len() as int));
        k1 + 1
    } else {
        assert(s.subrange(0, s.len() as int) =~= s);
        0
    }
}

proof fn lemma_trim_back_sub(s: Seq<char>) -> (m: int)
    ensures
        0 <= m <= s.len(),
        trim_back(s) == s.subrange(0, m),
        m > 0 ==> !is_ws(s[m - 1]),
    decreases s.len(),
{
    if s.len() > 0 && is_ws(s.last()) {
        let m1 = lemma_trim_back_sub(s.drop_last());
        assert(s.drop_last().subrange(0, m1) =~= s.subrange(0, m1));
        m1
    } else {
        assert(s.subrange(0, s.len() as int) =~= s);
        s.len() as int
    }
}

/// Trimming text without `#` or line breaks gives a value a line can carry.
proof fn lemma_trim_clean(x: Seq<char>)
    requires
        forall|i: int| 0 <= i < x.len() ==> #[trigger] x[i] != '#' && x[i] != '\n',
    ensures
        representable(trim(x)),
        forall|i: int| 0 <= i < trim(x).len() ==> #[trigger] trim(x)[i] != '\n',
{
    let k = lemma_trim_front_sub(x);
    let y = x.subrange(k, x.len() as int);
    let m = lemma_trim_back_sub(y);
    assert(trim(x) == y.subrange(0, m));
    let r = trim(x);
    assert forall|i: int| 0 <= i < r.len() implies #[trigger] r[i] != '#' && r[i] != '\n' by {
        assert(r[i] == x[k + i]);
    }
    if r.len() > 0 {
        assert(r[0] == y[0]);
        assert(r.last() == y[m - 1]);
    }
}

/// Settings that a configuration text can leave: a valid name if any, and peers
/// that a line can carry.
pub open spec fn clean(c: ConfigView) -> bool {
    &&& c.name.len() > 0 ==> valid_name(c.name)
    &&& forall|x: Seq<char>| #[trigger] c.connect_to.contains(x) ==> representable(x)
}

proof fn lemma_load_from_clean(t: Seq<char>, start: int, n: usize, c: ConfigView)
    requires
        clean(c),
    ensures
        load_from(t, start, n, c) matches Ok(v) ==> clean(v) && valid_name(v.name),
    decreases t.len() + 1 - start,
{
    if 0 <= start < t.len() {
        let end = find_from(t, '\n', start);
        lemma_find_from_bounds(t, '\n', start);
        let raw = t.subrange(start, end);
        assert forall|i: int| 0 <= i < raw.len() implies #[trigger] raw[i] != '\n' by {
            lemma_find_before(t, '\n', start, start + i);
        }
        let line = trim(raw);
        let next = (n + 1) as usize;
        if is_blank_or_comment(line) {
            lemma_load_from_clean(t, end + 1, next, c);
        } else {
            match split_line(line, n) {
                Err(_) => {},
                Ok((k, v)) => {
                    let eq = find(line, '=');
                    lemma_find_from_bounds(line, '=', 0);
                    let k1 = lemma_trim_front_sub(raw);
                    let m1 = lemma_trim_back_sub(raw.subrange(k1, raw.len() as int));
                    assert forall|i: int| 0 <= i < line.len() implies #[trigger] line[i] != '\n' by {
                        assert(line[i] == raw[k1 + i]);
                    }
                    let after = line.subrange(eq + 1, line.len() as int);
                    let ka = lemma_trim_front_sub(after);
                    let rest = trim(after);
                    let ma = lemma_trim_back_sub(after.subrange(ka, after.len() as int));
                    assert forall|i: int| 0 <= i < rest.len() implies #[trigger] rest[i] != '\n' by {
                        assert(rest[i] == after[ka + i]);
                    }
                    let h = find(rest, '#');
                    lemma_find_from_bounds(rest, '#', 0);
                    let cut = rest.subrange(0, h);
                    assert forall|i: int| 0 <= i < cut.len() implies #[trigger] cut[i] != '#' && cut[i] != '\n' by {
                        lemma_find_before(rest, '#', 0, i);
                    }
                    lemma_trim_clean(cut);
                    assert(v == trim(cut));
                    match apply_line(c, k, v, n) {
                        Err(_) => {},
                        Ok(c2) => {
                            assert(clean(c2)) by {
                                if k == "ConnectTo"@ && k != "Name"@ && k != "LogLevel"@ {
                                    assert forall|x: Seq<char>| #[trigger] c2.connect_to.contains(x) implies representable(x) by {
                                        if x != v {
                                            assert(c.connect_to.contains(x));
                                        }
                                    }
                                }
                            }
                            lemma_load_from_clean(t, end + 1, next, c2);
                        },
                    }
                },
            }
        }
    }
}

/// Loading a configuration text, writing the settings in canonical form and
/// loading that text gives the same settings.
pub proof fn lemma_load_format_load(t: Seq<char>, c: Config)
    requires
        load(t) == Ok::<_, crate::config::ConfigError>(c@),
        c.wf(),
        c.connect_to@.len() + 3 < usize::MAX,
    ensures
        load(formatted(c)) == load(t),
{
    assert(clean(initial_view()));
    lemma_load_from_clean(t, 0, 0, initial_view());
    assert forall|i: int| 0 <= i < c.connect_to@.len() implies representable(#[trigger] c.connect_to@[i]@) by {
        assert(c@.connect_to.contains(c.connect_to@[i]@));
    }
    lemma_format_round_trip(c);
}

} // verus!
