//! Which build a running daemon is, and whether another build may take its
//! place.
//!
//! A daemon publishes a stamp of its build. Executables are compared by age,
//! so that of two builds only the older ever gives way; the plugin's
//! fingerprint has no order and decides only between executables of the same
//! age.

use vstd::prelude::*;
use vstd::string::*;

use crate::number::{
    decimal, is_digit, lemma_decimal, parse_signed, parsed_signed, signed_decimal,
    signed_decimal_reads_back, signed_decimal_text,
};
use crate::text::{
    lemma_position_is, lines, lines_of, opt_text, same, split_first, split_once, views, without_cr,
};

verus! {

pub const EXE_KEY: &'static str = "exe";

pub const EXE_MTIME_KEY: &'static str = "exe_mtime_millis";

pub const PLUGIN_KEY: &'static str = "plugin_fingerprint";

/// The build a daemon is running, as it describes itself.
#[derive(Clone, Debug, PartialEq, Eq)]
pub struct BuildStamp {
    /// Where the executable was when the daemon started; it takes no part in
    /// the comparison.
    pub exe: String,
    /// When the executable was built, in milliseconds since the epoch.
    pub exe_mtime_millis: i64,
    /// The build of the bundled plugin that this process would run.
    pub plugin: String,
}

/// How a running daemon's build compares with the build asking about it.
#[derive(Clone, Copy, Debug, PartialEq, Eq, Structural)]
pub enum Vintage {
    /// Not behind: the same build, or a later one.
    Current,
    /// From an executable built before this one.
    Outdated,
    /// From an executable of the same age, with another plugin.
    PluginChanged,
    /// It published no readable stamp.
    Unknown,
}

/// What a stamp says.
pub struct Account {
    pub exe: Seq<char>,
    pub mtime: int,
    pub plugin: Seq<char>,
}

impl View for BuildStamp {
    type V = Account;

    open spec fn view(&self) -> Account {
        Account { exe: self.exe@, mtime: self.exe_mtime_millis as int, plugin: self.plugin@ }
    }
}

/// The text of a published stamp.
pub open spec fn stamp_text(stamp: Account) -> Seq<char> {
    EXE_KEY@ + "="@ + stamp.exe + "\n"@ + EXE_MTIME_KEY@ + "="@ + signed_decimal(stamp.mtime) + "\n"@
        + PLUGIN_KEY@ + "="@ + stamp.plugin + "\n"@
}

/// The text to publish a stamp as.
pub fn write(stamp: &BuildStamp) -> (r: String)
    ensures
        r@ == stamp_text(stamp@),
{
    let mut r: String = EXE_KEY.to_owned();
    r.append("=");
    r.append(stamp.exe.as_str());
    r.append("\n");
    r.append(EXE_MTIME_KEY);
    r.append("=");
    r.append(signed_decimal_text(stamp.exe_mtime_millis).as_str());
    r.append("\n");
    r.append(PLUGIN_KEY);
    r.append("=");
    r.append(stamp.plugin.as_str());
    r.append("\n");
    r
}

/// What the lines read so far say of a build.
pub struct Fields {
    pub exe: Option<Seq<char>>,
    pub mtime: Option<int>,
    pub plugin: Option<Seq<char>>,
}

/// What one more line adds. A line is a key, an equals sign and a value, which
/// may hold further equals signs; other lines and other keys say nothing.
pub open spec fn with_line(f: Fields, line: Seq<char>) -> Fields {
    match split_once(line, '=') {
        None => f,
        Some((key, value)) => if key == EXE_KEY@ {
            Fields { exe: Some(value), ..f }
        } else if key == EXE_MTIME_KEY@ {
            Fields { mtime: parsed_signed(value), ..f }
        } else if key == PLUGIN_KEY@ {
            Fields { plugin: Some(value), ..f }
        } else {
            f
        },
    }
}

/// What all the lines say of a build; a later line overrides an earlier one.
pub open spec fn fields(ls: Seq<Seq<char>>) -> Fields
    decreases ls.len(),
{
    if ls.len() == 0 {
        Fields { exe: None, mtime: None, plugin: None }
    } else {
        with_line(fields(ls.drop_last()), ls.last())
    }
}

/// The build a stamp describes; nothing where it is not a whole account of one.
pub open spec fn stamp_in(body: Seq<char>) -> Option<Account> {
    let f = fields(lines(body));
    match (f.exe, f.mtime, f.plugin) {
        (Some(exe), Some(mtime), Some(plugin)) => Some(Account { exe, mtime, plugin }),
        _ => None,
    }
}

/// Reads a published stamp back. `body` is what the file says, if it could be
/// read: absent, unreadable and malformed all mean that nothing trustworthy
/// is on record.
pub fn read(body: Option<&str>) -> (r: Option<BuildStamp>)
    ensures
        match body {
            Some(text) => match r {
                Some(stamp) => stamp_in(text@) == Some(stamp@),
                None => stamp_in(text@) is None,
            },
            None => r is None,
        },
{
    let text: &str = match body {
        Some(text) => text,
        None => {
            return None;
        },
    };
    let ls = lines_of(text);
    let ghost all = lines(text@);
    let mut exe: Option<String> = None;
    let mut exe_mtime_millis: Option<i64> = None;
    let mut plugin: Option<String> = None;
    let mut i: usize = 0;
    proof {
        assert(all.take(0) =~= seq![]);
    }
    while i < ls.len()
        invariant
            i <= ls.len(),
            all == views(ls@),
            opt_text(exe) == fields(all.take(i as int)).exe,
            opt_text(plugin) == fields(all.take(i as int)).plugin,
            fields(all.take(i as int)).mtime == (match exe_mtime_millis {
                Some(n) => Some(n as int),
                None => None,
            }),
        decreases ls.len() - i,
    {
        proof {
            assert(all.take(i + 1).drop_last() =~= all.take(i as int));
            assert(all.take(i + 1).last() == ls@[i as int]@);
        }
        match split_first(ls[i].as_str(), '=') {
            Some((key, value)) => {
                if same(key.as_str(), EXE_KEY) {
                    exe = Some(value);
                } else if same(key.as_str(), EXE_MTIME_KEY) {
                    exe_mtime_millis = parse_signed(value.as_str());
                } else if same(key.as_str(), PLUGIN_KEY) {
                    plugin = Some(value);
                }
            },
            None => {},
        }
        i += 1;
    }
    proof {
        assert(all.take(i as int) =~= all);
    }
    match (exe, exe_mtime_millis, plugin) {
        (Some(exe), Some(exe_mtime_millis), Some(plugin)) => Some(
            BuildStamp { exe, exe_mtime_millis, plugin },
        ),
        _ => None,
    }
}

/// How the build of `incumbent` compares with `ours`.
pub open spec fn compared(incumbent: Option<Account>, ours: Account) -> Vintage {
    match incumbent {
        None => Vintage::Unknown,
        Some(theirs) => if theirs.mtime < ours.mtime {
            Vintage::Outdated
        } else if theirs.mtime == ours.mtime && theirs.plugin != ours.plugin {
            Vintage::PluginChanged
        } else {
            Vintage::Current
        },
    }
}

/// Compares the stamp a running daemon published, if it published one, with the
/// build asking.
pub fn vintage(incumbent: Option<&BuildStamp>, ours: &BuildStamp) -> (r: Vintage)
    ensures
        r == compared(
            match incumbent {
                Some(stamp) => Some(stamp@),
                None => None,
            },
            ours@,
        ),
{
    match incumbent {
        None => Vintage::Unknown,
        Some(theirs) => {
            if theirs.exe_mtime_millis < ours.exe_mtime_millis {
                Vintage::Outdated
            } else if theirs.exe_mtime_millis == ours.exe_mtime_millis && !same(
                theirs.plugin.as_str(),
                ours.plugin.as_str(),
            ) {
                Vintage::PluginChanged
            } else {
                Vintage::Current
            }
        },
    }
}

/// One clause that names a verdict.
pub open spec fn described(vintage: Vintage) -> Seq<char> {
    match vintage {
        Vintage::Current => "started from this build"@,
        Vintage::Outdated => "started from an older build of g-mesh"@,
        Vintage::PluginChanged => "is holding a JS/TS plugin build that has since been rebuilt"@,
        Vintage::Unknown => "published no build stamp, so it predates this check"@,
    }
}

/// One clause that names a verdict.
pub fn describe(vintage: Vintage) -> (r: &'static str)
    ensures
        r@ == described(vintage),
{
    match vintage {
        Vintage::Current => "started from this build",
        Vintage::Outdated => "started from an older build of g-mesh",
        Vintage::PluginChanged => "is holding a JS/TS plugin build that has since been rebuilt",
        Vintage::Unknown => "published no build stamp, so it predates this check",
    }
}

/// Of two builds of different age one gives way and the other does not, so two
/// daemons never keep retiring each other.
pub proof fn only_the_older_build_gives_way(one: Account, other: Account)
    requires
        one.mtime != other.mtime,
    ensures
        compared(Some(one), other) == Vintage::Current || compared(Some(other), one) == Vintage::Current,
        compared(Some(one), other) == Vintage::Outdated <==> compared(Some(other), one)
            == Vintage::Current,
{
}

/// A later build is left alone whatever plugin it holds.
pub proof fn a_later_build_is_current(theirs: Account, ours: Account)
    requires
        theirs.mtime > ours.mtime,
    ensures
        compared(Some(theirs), ours) == Vintage::Current,
{
}

/// A build is current to itself, wherever its executable lies.
pub proof fn a_build_is_current_to_itself(theirs: Account, ours: Account)
    requires
        theirs.mtime == ours.mtime,
        theirs.plugin == ours.plugin,
    ensures
        compared(Some(theirs), ours) == Vintage::Current,
{
}

/// Every verdict is described in words of its own.
pub proof fn descriptions_differ(one: Vintage, other: Vintage)
    requires
        one != other,
    ensures
        described(one) != described(other),
{
    reveal_strlit("started from this build");
    reveal_strlit("started from an older build of g-mesh");
    reveal_strlit("is holding a JS/TS plugin build that has since been rebuilt");
    reveal_strlit("published no build stamp, so it predates this check");
    assert(described(one).len() != described(other).len());
}

/// Whether a value survives being written on a line of its own.
pub open spec fn fits_on_a_line(value: Seq<char>) -> bool {
    !value.contains('\n') && (value.len() > 0 ==> value.last() != '\r')
}

/// A line that is written first is read first.
proof fn lemma_first_line(line: Seq<char>, rest: Seq<char>)
    requires
        fits_on_a_line(line),
    ensures
        lines(line + "\n"@ + rest) == seq![line] + lines(rest),
{
    reveal_strlit("\n");
    assert("\n"@ =~= seq!['\n']);
    let s = line + "\n"@ + rest;
    assert forall|j: int| 0 <= j < line.len() implies s[j] != '\n' by {
        assert(s[j] == line[j]);
        if line[j] == '\n' {
            assert(line.contains('\n'));
        }
    }
    lemma_position_is(s, '\n', line.len() as int);
    assert(s.take(line.len() as int) =~= line);
    assert(s.skip(line.len() as int + 1) =~= rest);
    assert(without_cr(line) == line);
}

/// A key and a value on one line are told apart.
proof fn lemma_key_and_value(key: Seq<char>, value: Seq<char>)
    requires
        !key.contains('='),
    ensures
        split_once(key + "="@ + value, '=') == Some((key, value)),
{
    reveal_strlit("=");
    assert("="@ =~= seq!['=']);
    let s = key + "="@ + value;
    assert forall|j: int| 0 <= j < key.len() implies s[j] != '=' by {
        assert(s[j] == key[j]);
        if key[j] == '=' {
            assert(key.contains('='));
        }
    }
    lemma_position_is(s, '=', key.len() as int);
    assert(s.take(key.len() as int) =~= key);
    assert(s.skip(key.len() as int + 1) =~= value);
}

proof fn lemma_line_fits(key: Seq<char>, value: Seq<char>)
    requires
        fits_on_a_line(value),
        !key.contains('\n'),
    ensures
        fits_on_a_line(key + "="@ + value),
{
    reveal_strlit("=");
    assert("="@ =~= seq!['=']);
    let s = key + "="@ + value;
    if s.contains('\n') {
        let j = choose|j: int| 0 <= j < s.len() && s[j] == '\n';
        if j < key.len() {
            assert(key[j] == '\n');
        } else if j > key.len() {
            assert(value[j - key.len() - 1] == '\n');
        }
    }
    if value.len() > 0 {
        assert(s.last() == value.last());
    } else {
        assert(s.last() == '=');
    }
}

proof fn lemma_number_fits(n: i64)
    ensures
        fits_on_a_line(signed_decimal(n as int)),
{
    reveal_strlit("-");
    assert("-"@ =~= seq!['-']);
    let text = signed_decimal(n as int);
    let size: nat = if n < 0 {
        (-(n as int)) as nat
    } else {
        n as nat
    };
    let d = decimal(size);
    lemma_decimal(size);
    assert forall|j: int| 0 <= j < text.len() implies text[j] != '\n' && text[j] != '\r' by {
        let k = if n < 0 { j - 1 } else { j };
        if k >= 0 {
            assert(text[j] == d[k]);
            assert(is_digit(d[k]));
        }
    }
}

/// The keys hold neither an equals sign nor a line feed, and differ.
proof fn lemma_keys()
    ensures
        !EXE_KEY@.contains('=') && !EXE_KEY@.contains('\n'),
        !EXE_MTIME_KEY@.contains('=') && !EXE_MTIME_KEY@.contains('\n'),
        !PLUGIN_KEY@.contains('=') && !PLUGIN_KEY@.contains('\n'),
        EXE_KEY@ != EXE_MTIME_KEY@,
        EXE_KEY@ != PLUGIN_KEY@,
        EXE_MTIME_KEY@ != PLUGIN_KEY@,
{
    reveal_strlit("exe");
    reveal_strlit("exe_mtime_millis");
    reveal_strlit("plugin_fingerprint");
    assert(EXE_KEY@.len() == 3 && EXE_MTIME_KEY@.len() == 16 && PLUGIN_KEY@.len() == 18);
}

proof fn lemma_three_lines(l1: Seq<char>, l2: Seq<char>, l3: Seq<char>)
    requires
        fits_on_a_line(l1),
        fits_on_a_line(l2),
        fits_on_a_line(l3),
    ensures
        lines(l1 + "\n"@ + (l2 + "\n"@ + (l3 + "\n"@ + seq![]))) == seq![l1, l2, l3],
{
    let rest3 = Seq::<char>::empty();
    let rest2 = l3 + "\n"@ + rest3;
    let rest1 = l2 + "\n"@ + rest2;
    lemma_first_line(l1, rest1);
    lemma_first_line(l2, rest2);
    lemma_first_line(l3, rest3);
    assert(lines(rest3) =~= seq![]);
    assert(seq![l1] + (seq![l2] + (seq![l3] + Seq::<Seq<char>>::empty())) =~= seq![l1, l2, l3]);
}

proof fn lemma_line_apart(before: Seq<char>, key: Seq<char>, value: Seq<char>)
    ensures
        before + key + "="@ + value + "\n"@ == before + (key + "="@ + value + "\n"@),
{
    assert(before + key + "="@ + value + "\n"@ =~= before + (key + "="@ + value + "\n"@));
}

/// A published stamp reads back exactly as it was written, whatever equals
/// signs its values hold, as long as each of them fits on a line.
pub proof fn a_published_stamp_reads_back(stamp: BuildStamp)
    requires
        fits_on_a_line(stamp.exe@),
        fits_on_a_line(stamp.plugin@),
    ensures
        stamp_in(stamp_text(stamp@)) == Some(stamp@),
{
    let mtime = signed_decimal(stamp@.mtime);
    signed_decimal_reads_back(stamp.exe_mtime_millis);
    lemma_number_fits(stamp.exe_mtime_millis);
    lemma_keys();
    let l1 = EXE_KEY@ + "="@ + stamp.exe@;
    let l2 = EXE_MTIME_KEY@ + "="@ + mtime;
    let l3 = PLUGIN_KEY@ + "="@ + stamp.plugin@;
    lemma_line_fits(EXE_KEY@, stamp.exe@);
    lemma_line_fits(EXE_MTIME_KEY@, mtime);
    lemma_line_fits(PLUGIN_KEY@, stamp.plugin@);
    lemma_three_lines(l1, l2, l3);
    lemma_line_apart(l1 + "\n"@, EXE_MTIME_KEY@, mtime);
    lemma_line_apart(l1 + "\n"@ + (l2 + "\n"@), PLUGIN_KEY@, stamp.plugin@);
    assert(l1 + "\n"@ + (l2 + "\n"@) + (l3 + "\n"@) =~= l1 + "\n"@ + (l2 + "\n"@ + (l3 + "\n"@)));
    assert(l3 + "\n"@ + Seq::<char>::empty() =~= l3 + "\n"@);
    lemma_stamp_lines(stamp@, l1, l2, l3);
}

/// What three lines of key and value say.
proof fn lemma_stamp_lines(stamp: Account, l1: Seq<char>, l2: Seq<char>, l3: Seq<char>)
    requires
        l1 == EXE_KEY@ + "="@ + stamp.exe,
        l2 == EXE_MTIME_KEY@ + "="@ + signed_decimal(stamp.mtime),
        l3 == PLUGIN_KEY@ + "="@ + stamp.plugin,
        parsed_signed(signed_decimal(stamp.mtime)) == Some(stamp.mtime),
    ensures
        fields(seq![l1, l2, l3]) == (Fields {
            exe: Some(stamp.exe),
            mtime: Some(stamp.mtime),
            plugin: Some(stamp.plugin),
        }),
{
    let mtime = signed_decimal(stamp.mtime);
    lemma_keys();
    lemma_key_and_value(EXE_KEY@, stamp.exe);
    lemma_key_and_value(EXE_MTIME_KEY@, mtime);
    lemma_key_and_value(PLUGIN_KEY@, stamp.plugin);
    let none = Seq::<Seq<char>>::empty();
    assert(seq![l1, l2, l3].drop_last() =~= seq![l1, l2]);
    assert(seq![l1, l2].drop_last() =~= seq![l1]);
    assert(seq![l1].drop_last() =~= none);
    assert(fields(seq![l1]) == with_line(fields(none), l1));
    assert(fields(seq![l1, l2]) == with_line(fields(seq![l1]), l2));
    assert(fields(seq![l1, l2, l3]) == with_line(fields(seq![l1, l2]), l3));
}

} // verus!
