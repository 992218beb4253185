//! Plugin configuration: defaults, validation, the `config.toml` text it is
//! stored as, and the permission nodes the plugin registers.

use vstd::prelude::*;
use crate::numbers::{
    decimal,
    decimal_chars,
    is_digit,
    lemma_decimal_shape,
    lemma_parse_decimal,
    int_error_message,
    int_error_text,
    parse_unsigned,
    parse_unsigned_chars,
    IntErrorKind,
};
use crate::text::{
    chars_eq_str,
    chars_of,
    is_ws,
    lemma_split_once_after,
    lines,
    lines_state,
    push_all,
    push_str,
    split_lines,
    split_once,
    split_once_chars,
    string_of,
    trim,
    trim_chars,
    trim_end,
    trim_start,
};

verus! {

pub const CONFIG_FILE_NAME: &'static str = "config.toml";

pub const PERM_SET: &'static str = "WorldPumpkin:command.set";

pub const PERM_REPLACE: &'static str = "WorldPumpkin:command.replace";

pub const PERM_WALLS: &'static str = "WorldPumpkin:command.walls";

pub const PERM_MOVE: &'static str = "WorldPumpkin:command.move";

pub const PERM_POS: &'static str = "WorldPumpkin:command.pos";

pub const PERM_UNDO: &'static str = "WorldPumpkin:command.undo";

pub const PERM_REDO: &'static str = "WorldPumpkin:command.redo";

pub const PERM_RELOAD: &'static str = "WorldPumpkin:command.reload";

pub const PERM_STATUS: &'static str = "WorldPumpkin:command.status";

pub const PERM_LIMIT_BYPASS: &'static str = "WorldPumpkin:limit.bypass";

pub const PERM_UPDATE_NOTIFY: &'static str = "WorldPumpkin:update.notify";

/// A permission the plugin registers, and whether operators hold it by default.
#[derive(Clone, Copy, Debug)]
pub struct PermissionNode {
    pub node: &'static str,
    pub description: &'static str,
    pub default_op: bool,
}

/// The permission nodes, in registration order: every command permission is
/// granted to operators by default; bypassing the edit limits is not.
pub fn permission_nodes() -> (nodes: Vec<PermissionNode>)
    ensures
        nodes@.len() == 11,
        forall|i: int|
            0 <= i < nodes@.len() ==> (#[trigger] nodes@[i]).default_op == (nodes@[i].node@
                != PERM_LIMIT_BYPASS@),
        nodes@[0].node@ == PERM_SET@,
        nodes@[0].description@ == "Allows filling a WorldPumpkin selection."@,
        nodes@[1].node@ == PERM_REPLACE@,
        nodes@[1].description@ == "Allows replacing blocks in a WorldPumpkin selection."@,
        nodes@[2].node@ == PERM_WALLS@,
        nodes@[2].description@ == "Allows building WorldPumpkin selection walls."@,
        nodes@[3].node@ == PERM_MOVE@,
        nodes@[3].description@ == "Allows moving the contents of a WorldPumpkin selection."@,
        nodes@[4].node@ == PERM_POS@,
        nodes@[4].description@ == "Allows setting WorldPumpkin selection positions."@,
        nodes@[5].node@ == PERM_UNDO@,
        nodes@[5].description@ == "Allows undoing WorldPumpkin edits."@,
        nodes@[6].node@ == PERM_REDO@,
        nodes@[6].description@ == "Allows redoing WorldPumpkin edits."@,
        nodes@[7].node@ == PERM_RELOAD@,
        nodes@[7].description@ == "Allows reloading WorldPumpkin config."@,
        nodes@[8].node@ == PERM_STATUS@,
        nodes@[8].description@ == "Allows reading WorldPumpkin status."@,
        nodes@[9].node@ == PERM_LIMIT_BYPASS@,
        nodes@[9].description@ == "Allows bypassing configured WorldPumpkin edit limits."@,
        nodes@[10].node@ == PERM_UPDATE_NOTIFY@,
        nodes@[10].description@ == "Receives WorldPumpkin update notifications on join."@,
        !nodes@[9].default_op,
        forall|i: int| 0 <= i < 11 && i != 9 ==> (#[trigger] nodes@[i]).default_op,
{
    let mut nodes: Vec<PermissionNode> = Vec::new();
    nodes.push(
        PermissionNode {
            node: PERM_SET,
            description: "Allows filling a WorldPumpkin selection.",
            default_op: true,
        },
    );
    nodes.push(
        PermissionNode {
            node: PERM_REPLACE,
            description: "Allows replacing blocks in a WorldPumpkin selection.",
            default_op: true,
        },
    );
    nodes.push(
        PermissionNode {
            node: PERM_WALLS,
            description: "Allows building WorldPumpkin selection walls.",
            default_op: true,
        },
    );
    nodes.push(
        PermissionNode {
            node: PERM_MOVE,
            description: "Allows moving the contents of a WorldPumpkin selection.",
            default_op: true,
        },
    );
    nodes.push(
        PermissionNode {
            node: PERM_POS,
            description: "Allows setting WorldPumpkin selection positions.",
            default_op: true,
        },
    );
    nodes.push(
        PermissionNode {
            node: PERM_UNDO,
            description: "Allows undoing WorldPumpkin edits.",
            default_op: true,
        },
    );
    nodes.push(
        PermissionNode {
            node: PERM_REDO,
            description: "Allows redoing WorldPumpkin edits.",
            default_op: true,
        },
    );
    nodes.push(
        PermissionNode {
            node: PERM_RELOAD,
            description: "Allows reloading WorldPumpkin config.",
            default_op: true,
        },
    );
    nodes.push(
        PermissionNode {
            node: PERM_STATUS,
            description: "Allows reading WorldPumpkin status.",
            default_op: true,
        },
    );
    nodes.push(
        PermissionNode {
            node: PERM_LIMIT_BYPASS,
            description: "Allows bypassing configured WorldPumpkin edit limits.",
            default_op: false,
        },
    );
    nodes.push(
        PermissionNode {
            node: PERM_UPDATE_NOTIFY,
            description: "Receives WorldPumpkin update notifications on join.",
            default_op: true,
        },
    );
    proof {
        reveal_strlit("WorldPumpkin:command.set");
        reveal_strlit("WorldPumpkin:command.replace");
        reveal_strlit("WorldPumpkin:command.walls");
        reveal_strlit("WorldPumpkin:command.move");
        reveal_strlit("WorldPumpkin:command.pos");
        reveal_strlit("WorldPumpkin:command.undo");
        reveal_strlit("WorldPumpkin:command.redo");
        reveal_strlit("WorldPumpkin:command.reload");
        reveal_strlit("WorldPumpkin:command.status");
        reveal_strlit("WorldPumpkin:limit.bypass");
        reveal_strlit("WorldPumpkin:update.notify");
        assert(PERM_LIMIT_BYPASS@[13] == 'l');
        assert(PERM_SET@[13] != PERM_LIMIT_BYPASS@[13]);
        assert(PERM_REPLACE@[13] != PERM_LIMIT_BYPASS@[13]);
        assert(PERM_WALLS@[13] != PERM_LIMIT_BYPASS@[13]);
        assert(PERM_MOVE@[13] != PERM_LIMIT_BYPASS@[13]);
        assert(PERM_POS@[13] != PERM_LIMIT_BYPASS@[13]);
        assert(PERM_UNDO@[13] != PERM_LIMIT_BYPASS@[13]);
        assert(PERM_REDO@[13] != PERM_LIMIT_BYPASS@[13]);
        assert(PERM_RELOAD@[13] != PERM_LIMIT_BYPASS@[13]);
        assert(PERM_STATUS@[13] != PERM_LIMIT_BYPASS@[13]);
        assert(PERM_UPDATE_NOTIFY@[13] != PERM_LIMIT_BYPASS@[13]);
        assert forall|i: int|
            0 <= i < nodes@.len() implies (#[trigger] nodes@[i]).default_op == (nodes@[i].node@
                != PERM_LIMIT_BYPASS@) by {
            if i == 0 {} else if i == 1 {} else if i == 2 {} else if i == 3 {} else if i == 4 {
            } else if i == 5 {} else if i == 6 {} else if i == 7 {} else if i == 8 {
            } else if i == 9 {} else {}
        }
    }
    nodes
}

/// The plugin's settings.
#[derive(Clone, Copy, Debug, PartialEq, Eq, Structural)]
pub struct Config {
    pub max_blocks_per_operation: u64,
    pub blocks_per_tick: usize,
    pub max_queued_operations: usize,
    pub max_queued_blocks: u64,
    pub max_history_entries: usize,
    pub max_history_blocks: usize,
    /// Fast mode uses direct chunk writes and disables physics side effects where possible.
    pub fast_mode: bool,
    pub notify_clients: bool,
    pub update_check_enabled: bool,
    pub update_notify_on_join: bool,
}

/// The documented defaults.
pub open spec fn default_config() -> Config {
    Config {
        max_blocks_per_operation: 250_000,
        blocks_per_tick: 8_192,
        max_queued_operations: 4,
        max_queued_blocks: 1_000_000,
        max_history_entries: 15,
        max_history_blocks: 500_000,
        fast_mode: true,
        notify_clients: true,
        update_check_enabled: true,
        update_notify_on_join: true,
    }
}

impl Default for Config {
    fn default() -> (c: Config)
        ensures
            c == default_config(),
    {
        Config {
            max_blocks_per_operation: 250_000,
            blocks_per_tick: 8_192,
            max_queued_operations: 4,
            max_queued_blocks: 1_000_000,
            max_history_entries: 15,
            max_history_blocks: 500_000,
            fast_mode: true,
            notify_clients: true,
            update_check_enabled: true,
            update_notify_on_join: true,
        }
    }
}

/// What `validate` answers: the first limit that is zero, or success.
pub open spec fn spec_validate(c: Config) -> Result<(), Seq<char>> {
    if c.max_blocks_per_operation == 0 {
        Err("max_blocks_per_operation must be greater than 0"@)
    } else if c.blocks_per_tick == 0 {
        Err("blocks_per_tick must be greater than 0"@)
    } else if c.max_queued_operations == 0 {
        Err("max_queued_operations must be greater than 0"@)
    } else if c.max_queued_blocks == 0 {
        Err("max_queued_blocks must be greater than 0"@)
    } else if c.max_history_entries == 0 {
        Err("max_history_entries must be greater than 0"@)
    } else if c.max_history_blocks == 0 {
        Err("max_history_blocks must be greater than 0"@)
    } else {
        Ok(())
    }
}

impl Config {
    /// Refuses a configuration in which a limit is zero.
    pub fn validate(&self) -> (r: Result<(), String>)
        ensures
            match spec_validate(*self) {
                Ok(()) => r is Ok,
                Err(e) => r matches Err(m) && m@ == e,
            },
    {
        if self.max_blocks_per_operation == 0 {
            return Err("max_blocks_per_operation must be greater than 0".to_owned());
        }
        if self.blocks_per_tick == 0 {
            return Err("blocks_per_tick must be greater than 0".to_owned());
        }
        if self.max_queued_operations == 0 {
            return Err("max_queued_operations must be greater than 0".to_owned());
        }
        if self.max_queued_blocks == 0 {
            return Err("max_queued_blocks must be greater than 0".to_owned());
        }
        if self.max_history_entries == 0 {
            return Err("max_history_entries must be greater than 0".to_owned());
        }
        if self.max_history_blocks == 0 {
            return Err("max_history_blocks must be greater than 0".to_owned());
        }
        Ok(())
    }
}


// ---------------------------------------------------------------------
// The `config.toml` text
// ---------------------------------------------------------------------

pub open spec fn bool_text(b: bool) -> Seq<char> {
    if b {
        "true"@
    } else {
        "false"@
    }
}

/// One `key = value` line, without its line break.
pub open spec fn setting_line(key: Seq<char>, value: Seq<char>) -> Seq<char> {
    key + " = "@ + value
}

/// The lines of the stored configuration, in the order they are written.
pub open spec fn config_lines(c: Config) -> Seq<Seq<char>> {
    seq![
        setting_line("max_blocks_per_operation"@, decimal(c.max_blocks_per_operation as nat)),
        setting_line("blocks_per_tick"@, decimal(c.blocks_per_tick as nat)),
        setting_line("max_queued_operations"@, decimal(c.max_queued_operations as nat)),
        setting_line("max_queued_blocks"@, decimal(c.max_queued_blocks as nat)),
        setting_line("max_history_entries"@, decimal(c.max_history_entries as nat)),
        setting_line("max_history_blocks"@, decimal(c.max_history_blocks as nat)),
        setting_line("fast_mode"@, bool_text(c.fast_mode)),
        setting_line("notify_clients"@, bool_text(c.notify_clients)),
        setting_line("update_check_enabled"@, bool_text(c.update_check_enabled)),
        setting_line("update_notify_on_join"@, bool_text(c.update_notify_on_join)),
    ]
}

/// The lines, each followed by a line break.
pub open spec fn join_lines(ls: Seq<Seq<char>>) -> Seq<char>
    decreases ls.len(),
{
    if ls.len() == 0 {
        Seq::<char>::empty()
    } else {
        join_lines(ls.drop_last()) + ls.last() + seq!['\n']
    }
}

/// The text `config.toml` holds for `c`.
pub open spec fn spec_config_toml(c: Config) -> Seq<char> {
    join_lines(config_lines(c))
}

fn push_setting(out: &mut Vec<char>, key: &str, value: &[char])
    ensures
        final(out)@ == old(out)@ + setting_line(key@, value@) + seq!['\n'],
{
    push_str(out, key);
    push_str(out, " = ");
    push_all(out, value);
    out.push('\n');
    assert(final(out)@ =~= old(out)@ + setting_line(key@, value@) + seq!['\n']);
}

fn bool_chars(b: bool) -> (out: Vec<char>)
    ensures
        out@ == bool_text(b),
{
    if b {
        chars_of("true")
    } else {
        chars_of("false")
    }
}

/// Renders a configuration as the text stored in `config.toml`.
pub fn config_toml(config: &Config) -> (out: String)
    ensures
        out@ == spec_config_toml(*config),
{
    let c = *config;
    let mut v: Vec<char> = Vec::new();
    let ghost ls = config_lines(c);
    let d = decimal_chars(c.max_blocks_per_operation);
    push_setting(&mut v, "max_blocks_per_operation", d.as_slice());
    assert(v@ =~= join_lines(ls.take(1))) by {
        assert(ls.take(1).drop_last() =~= Seq::<Seq<char>>::empty());
        assert(join_lines(Seq::<Seq<char>>::empty()) =~= Seq::<char>::empty());
    }
    let d = decimal_chars(c.blocks_per_tick as u64);
    push_setting(&mut v, "blocks_per_tick", d.as_slice());
    assert(v@ =~= join_lines(ls.take(2))) by {
        assert(ls.take(2).drop_last() =~= ls.take(1));
    }
    let d = decimal_chars(c.max_queued_operations as u64);
    push_setting(&mut v, "max_queued_operations", d.as_slice());
    assert(v@ =~= join_lines(ls.take(3))) by {
        assert(ls.take(3).drop_last() =~= ls.take(2));
    }
    let d = decimal_chars(c.max_queued_blocks);
    push_setting(&mut v, "max_queued_blocks", d.as_slice());
    assert(v@ =~= join_lines(ls.take(4))) by {
        assert(ls.take(4).drop_last() =~= ls.take(3));
    }
    let d = decimal_chars(c.max_history_entries as u64);
    push_setting(&mut v, "max_history_entries", d.as_slice());
    assert(v@ =~= join_lines(ls.take(5))) by {
        assert(ls.take(5).drop_last() =~= ls.take(4));
    }
    let d = decimal_chars(c.max_history_blocks as u64);
    push_setting(&mut v, "max_history_blocks", d.as_slice());
    assert(v@ =~= join_lines(ls.take(6))) by {
        assert(ls.take(6).drop_last() =~= ls.take(5));
    }
    let d = bool_chars(c.fast_mode);
    push_setting(&mut v, "fast_mode", d.as_slice());
    assert(v@ =~= join_lines(ls.take(7))) by {
        assert(ls.take(7).drop_last() =~= ls.take(6));
    }
    let d = bool_chars(c.notify_clients);
    push_setting(&mut v, "notify_clients", d.as_slice());
    assert(v@ =~= join_lines(ls.take(8))) by {
        assert(ls.take(8).drop_last() =~= ls.take(7));
    }
    let d = bool_chars(c.update_check_enabled);
    push_setting(&mut v, "update_check_enabled", d.as_slice());
    assert(v@ =~= join_lines(ls.take(9))) by {
        assert(ls.take(9).drop_last() =~= ls.take(8));
    }
    let d = bool_chars(c.update_notify_on_join);
    push_setting(&mut v, "update_notify_on_join", d.as_slice());
    assert(v@ =~= join_lines(ls.take(10))) by {
        assert(ls.take(10).drop_last() =~= ls.take(9));
    }
    assert(ls.take(10) =~= ls);
    string_of(v.as_slice())
}


// ---------------------------------------------------------------------
// Reading `config.toml`
// ---------------------------------------------------------------------

/// A line without the comment that a `#` starts.
pub open spec fn strip_comment(line: Seq<char>) -> Seq<char> {
    match split_once(line, '#') {
        Some(p) => p.0,
        None => line,
    }
}

pub open spec fn int_setting_error(key: Seq<char>, e: IntErrorKind) -> Seq<char> {
    "failed to parse `"@ + key + "` as integer: "@ + int_error_text(e)
}

pub open spec fn bool_setting_error(key: Seq<char>) -> Seq<char> {
    "failed to parse `"@ + key + "` as bool"@
}

pub open spec fn missing_equals_error(line_no: nat) -> Seq<char> {
    "line "@ + decimal(line_no) + " is missing `=`"@
}

/// The value of an integer setting whose type's largest value is `bound`.
pub open spec fn spec_parse_int(value: Seq<char>, key: Seq<char>, bound: nat) -> Result<nat, Seq<char>> {
    match parse_unsigned(value, bound) {
        Ok(n) => Ok(n),
        Err(e) => Err(int_setting_error(key, e)),
    }
}

/// The value of a boolean setting: exactly `true` or `false`.
pub open spec fn spec_parse_bool(value: Seq<char>, key: Seq<char>) -> Result<bool, Seq<char>> {
    if value == "true"@ {
        Ok(true)
    } else if value == "false"@ {
        Ok(false)
    } else {
        Err(bool_setting_error(key))
    }
}

/// Applies one `key = value` setting; an unknown key changes nothing.
pub open spec fn apply_setting(c: Config, key: Seq<char>, value: Seq<char>) -> Result<Config, Seq<char>> {
    if key == "max_blocks_per_operation"@ {
        match spec_parse_int(value, key, u64::MAX as nat) {
            Ok(n) => Ok(Config { max_blocks_per_operation: n as u64, ..c }),
            Err(e) => Err(e),
        }
    } else if key == "blocks_per_tick"@ {
        match spec_parse_int(value, key, usize::MAX as nat) {
            Ok(n) => Ok(Config { blocks_per_tick: n as usize, ..c }),
            Err(e) => Err(e),
        }
    } else if key == "max_queued_operations"@ {
        match spec_parse_int(value, key, usize::MAX as nat) {
            Ok(n) => Ok(Config { max_queued_operations: n as usize, ..c }),
            Err(e) => Err(e),
        }
    } else if key == "max_queued_blocks"@ {
        match spec_parse_int(value, key, u64::MAX as nat) {
            Ok(n) => Ok(Config { max_queued_blocks: n as u64, ..c }),
            Err(e) => Err(e),
        }
    } else if key == "max_history_entries"@ {
        match spec_parse_int(value, key, usize::MAX as nat) {
            Ok(n) => Ok(Config { max_history_entries: n as usize, ..c }),
            Err(e) => Err(e),
        }
    } else if key == "max_history_blocks"@ {
        match spec_parse_int(value, key, usize::MAX as nat) {
            Ok(n) => Ok(Config { max_history_blocks: n as usize, ..c }),
            Err(e) => Err(e),
        }
    } else if key == "fast_mode"@ {
        match spec_parse_bool(value, key) {
            Ok(b) => Ok(Config { fast_mode: b, ..c }),
            Err(e) => Err(e),
        }
    } else if key == "notify_clients"@ {
        match spec_parse_bool(value, key) {
            Ok(b) => Ok(Config { notify_clients: b, ..c }),
            Err(e) => Err(e),
        }
    } else if key == "update_check_enabled"@ {
        match spec_parse_bool(value, key) {
            Ok(b) => Ok(Config { update_check_enabled: b, ..c }),
            Err(e) => Err(e),
        }
    } else if key == "update_notify_on_join"@ {
        match spec_parse_bool(value, key) {
            Ok(b) => Ok(Config { update_notify_on_join: b, ..c }),
            Err(e) => Err(e),
        }
    } else {
        Ok(c)
    }
}

/// Applies line number `line_no`: blank and comment-only lines change
/// nothing, a line without `=` is refused.
pub open spec fn apply_line(c: Config, line: Seq<char>, line_no: nat) -> Result<Config, Seq<char>> {
    let l = trim(strip_comment(line));
    if l.len() == 0 {
        Ok(c)
    } else {
        match split_once(l, '=') {
            None => Err(missing_equals_error(line_no)),
            Some(kv) => apply_setting(c, trim(kv.0), trim(kv.1)),
        }
    }
}

/// The configuration after the first `n` lines, starting from the defaults;
/// the first error stops the reading.
pub open spec fn parse_lines(ls: Seq<Seq<char>>, n: nat) -> Result<Config, Seq<char>>
    decreases n,
{
    if n == 0 {
        Ok(default_config())
    } else {
        match parse_lines(ls, (n - 1) as nat) {
            Err(e) => Err(e),
            Ok(c) => apply_line(c, ls[n - 1], n),
        }
    }
}

pub open spec fn spec_parse_config(raw: Seq<char>) -> Result<Config, Seq<char>> {
    parse_lines(lines(raw), lines(raw).len())
}

fn int_setting_message(key: &[char], e: IntErrorKind) -> (m: String)
    ensures
        m@ == int_setting_error(key@, e),
{
    let mut v: Vec<char> = Vec::new();
    push_str(&mut v, "failed to parse `");
    push_all(&mut v, key);
    push_str(&mut v, "` as integer: ");
    let t = int_error_message(e);
    push_all(&mut v, t.as_slice());
    string_of(v.as_slice())
}

/// Reads an integer setting of a type whose largest value is `bound`.
fn parse_int_setting(value: &[char], key: &[char], bound: u64) -> (r: Result<u64, String>)
    ensures
        match spec_parse_int(value@, key@, bound as nat) {
            Ok(n) => r == Ok::<u64, String>(n as u64),
            Err(e) => r matches Err(m) && m@ == e,
        },
{
    match parse_unsigned_chars(value, bound) {
        Ok(n) => Ok(n),
        Err(e) => Err(int_setting_message(key, e)),
    }
}

/// Reads a `u64` setting.
pub fn parse_u64(value: &[char], key: &[char]) -> (r: Result<u64, String>)
    ensures
        match spec_parse_int(value@, key@, u64::MAX as nat) {
            Ok(n) => r == Ok::<u64, String>(n as u64),
            Err(e) => r matches Err(m) && m@ == e,
        },
{
    parse_int_setting(value, key, u64::MAX)
}

/// Reads a `usize` setting.
pub fn parse_usize(value: &[char], key: &[char]) -> (r: Result<usize, String>)
    ensures
        match spec_parse_int(value@, key@, usize::MAX as nat) {
            Ok(n) => r == Ok::<usize, String>(n as usize),
            Err(e) => r matches Err(m) && m@ == e,
        },
{
    match parse_int_setting(value, key, usize::MAX as u64) {
        Ok(n) => Ok(n as usize),
        Err(e) => Err(e),
    }
}

/// Reads a boolean setting.
pub fn parse_bool(value: &[char], key: &[char]) -> (r: Result<bool, String>)
    ensures
        match spec_parse_bool(value@, key@) {
            Ok(b) => r == Ok::<bool, String>(b),
            Err(e) => r matches Err(m) && m@ == e,
        },
{
    if chars_eq_str(value, "true") {
        Ok(true)
    } else if chars_eq_str(value, "false") {
        Ok(false)
    } else {
        let mut v: Vec<char> = Vec::new();
        push_str(&mut v, "failed to parse `");
        push_all(&mut v, key);
        push_str(&mut v, "` as bool");
        Err(string_of(v.as_slice()))
    }
}

fn apply_setting_exec(c: Config, key: &[char], value: &[char]) -> (r: Result<Config, String>)
    ensures
        match apply_setting(c, key@, value@) {
            Ok(c2) => r == Ok::<Config, String>(c2),
            Err(e) => r matches Err(m) && m@ == e,
        },
{
    if chars_eq_str(key, "max_blocks_per_operation") {
        match parse_u64(value, key) {
            Ok(n) => Ok(Config { max_blocks_per_operation: n, ..c }),
            Err(e) => Err(e),
        }
    } else if chars_eq_str(key, "blocks_per_tick") {
        match parse_usize(value, key) {
            Ok(n) => Ok(Config { blocks_per_tick: n, ..c }),
            Err(e) => Err(e),
        }
    } else if chars_eq_str(key, "max_queued_operations") {
        match parse_usize(value, key) {
            Ok(n) => Ok(Config { max_queued_operations: n, ..c }),
            Err(e) => Err(e),
        }
    } else if chars_eq_str(key, "max_queued_blocks") {
        match parse_u64(value, key) {
            Ok(n) => Ok(Config { max_queued_blocks: n, ..c }),
            Err(e) => Err(e),
        }
    } else if chars_eq_str(key, "max_history_entries") {
        match parse_usize(value, key) {
            Ok(n) => Ok(Config { max_history_entries: n, ..c }),
            Err(e) => Err(e),
        }
    } else if chars_eq_str(key, "max_history_blocks") {
        match parse_usize(value, key) {
            Ok(n) => Ok(Config { max_history_blocks: n, ..c }),
            Err(e) => Err(e),
        }
    } else if chars_eq_str(key, "fast_mode") {
        match parse_bool(value, key) {
            Ok(b) => Ok(Config { fast_mode: b, ..c }),
            Err(e) => Err(e),
        }
    } else if chars_eq_str(key, "notify_clients") {
        match parse_bool(value, key) {
            Ok(b) => Ok(Config { notify_clients: b, ..c }),
            Err(e) => Err(e),
        }
    } else if chars_eq_str(key, "update_check_enabled") {
        match parse_bool(value, key) {
            Ok(b) => Ok(Config { update_check_enabled: b, ..c }),
            Err(e) => Err(e),
        }
    } else if chars_eq_str(key, "update_notify_on_join") {
        match parse_bool(value, key) {
            Ok(b) => Ok(Config { update_notify_on_join: b, ..c }),
            Err(e) => Err(e),
        }
    } else {
        Ok(c)
    }
}

fn missing_equals_message(line_no: u64) -> (m: String)
    ensures
        m@ == missing_equals_error(line_no as nat),
{
    let mut v: Vec<char> = Vec::new();
    push_str(&mut v, "line ");
    let d = decimal_chars(line_no);
    push_all(&mut v, d.as_slice());
    push_str(&mut v, " is missing `=`");
    string_of(v.as_slice())
}

fn apply_line_exec(c: Config, line: &[char], line_no: u64) -> (r: Result<Config, String>)
    ensures
        match apply_line(c, line@, line_no as nat) {
            Ok(c2) => r == Ok::<Config, String>(c2),
            Err(e) => r matches Err(m) && m@ == e,
        },
{
    let l = match split_once_chars(line, '#') {
        Some(p) => trim_chars(p.0.as_slice()),
        None => trim_chars(line),
    };
    if l.len() == 0 {
        return Ok(c);
    }
    match split_once_chars(l.as_slice(), '=') {
        None => Err(missing_equals_message(line_no)),
        Some(kv) => {
            let key = trim_chars(kv.0.as_slice());
            let value = trim_chars(kv.1.as_slice());
            apply_setting_exec(c, key.as_slice(), value.as_slice())
        },
    }
}

/// Reads `config.toml`: settings absent from the text keep their defaults,
/// unknown keys are ignored, `#` starts a comment, and the first malformed
/// line or value is reported.
pub fn parse_config(raw: &str) -> (r: Result<Config, String>)
    ensures
        match spec_parse_config(raw@) {
            Ok(c) => r == Ok::<Config, String>(c),
            Err(e) => r matches Err(m) && m@ == e,
        },
{
    let chars = chars_of(raw);
    let ls = split_lines(chars.as_slice());
    let ghost spec_ls = lines(raw@);
    assert(chars@ == raw@);
    let mut c = Config::default();
    let mut i: usize = 0;
    while i < ls.len()
        invariant
            spec_ls == lines(raw@),
            ls@.len() == spec_ls.len(),
            forall|k: int| 0 <= k < ls@.len() ==> #[trigger] ls@[k]@ == spec_ls[k],
            i <= ls@.len(),
            parse_lines(spec_ls, i as nat) == Ok::<Config, Seq<char>>(c),
        decreases ls@.len() - i,
    {
        let r = apply_line_exec(c, ls[i].as_slice(), (i as u64) + 1);
        assert(ls@[i as int]@ == spec_ls[i as int]);
        assert(parse_lines(spec_ls, (i + 1) as nat) == apply_line(c, spec_ls[i as int], (i + 1) as nat));
        match r {
            Ok(c2) => {
                c = c2;
            },
            Err(m) => {
                proof {
                    lemma_parse_lines_error_sticks(spec_ls, (i + 1) as nat, spec_ls.len());
                }
                return Err(m);
            },
        }
        i += 1;
    }
    Ok(c)
}

/// Once a line is refused, the reading stays refused with the same error.
pub proof fn lemma_parse_lines_error_sticks(ls: Seq<Seq<char>>, n: nat, m: nat)
    requires
        n <= m,
        parse_lines(ls, n) is Err,
    ensures
        parse_lines(ls, m) == parse_lines(ls, n),
    decreases m - n,
{
    if n < m {
        lemma_parse_lines_error_sticks(ls, n, (m - 1) as nat);
    }
}


/// What loading `config.toml` yields: the configuration, and the text to
/// write back when the file is missing or not in its normal form.
pub open spec fn spec_load(existing: Option<Seq<char>>, path: Seq<char>) -> Result<
    (Config, Option<Seq<char>>),
    Seq<char>,
> {
    match existing {
        None => Ok((default_config(), Some(spec_config_toml(default_config())))),
        Some(raw) => match spec_parse_config(raw) {
            Err(e) => Err("failed to parse "@ + path + ": "@ + e),
            Ok(c) => match spec_validate(c) {
                Err(e) => Err(e),
                Ok(_) => if raw == spec_config_toml(c) {
                    Ok((c, None))
                } else {
                    Ok((c, Some(spec_config_toml(c))))
                },
            },
        },
    }
}

impl Config {
    /// Decides what loading yields from the file's contents (`None` when the
    /// file does not exist): the defaults for a missing file, otherwise the
    /// parsed and validated settings; the text to write accompanies the
    /// configuration whenever the file is missing or differs from its
    /// normal form.
    pub fn load_from(existing: Option<&str>, path: &str) -> (r: Result<(Config, Option<String>), String>)
        ensures
            match spec_load(
                match existing {
                    Some(s) => Some(s@),
                    None => None,
                },
                path@,
            ) {
                Ok((c, w)) => r matches Ok((c2, w2)) && c2 == c && match w {
                    Some(t) => w2 matches Some(t2) && t2@ == t,
                    None => w2 is None,
                },
                Err(e) => r matches Err(m) && m@ == e,
            },
    {
        match existing {
            None => {
                let c = Config::default();
                let text = config_toml(&c);
                Ok((c, Some(text)))
            },
            Some(raw) => match parse_config(raw) {
                Err(e) => {
                    let mut v: Vec<char> = Vec::new();
                    push_str(&mut v, "failed to parse ");
                    push_str(&mut v, path);
                    push_str(&mut v, ": ");
                    push_str(&mut v, e.as_str());
                    Err(string_of(v.as_slice()))
                },
                Ok(c) => match c.validate() {
                    Err(e) => Err(e),
                    Ok(()) => {
                        let normalized = config_toml(&c);
                        let rc = chars_of(raw);
                        if chars_eq_str(rc.as_slice(), normalized.as_str()) {
                            Ok((c, None))
                        } else {
                            Ok((c, Some(normalized)))
                        }
                    },
                },
            },
        }
    }
}


// ---------------------------------------------------------------------
// A stored configuration reads back as itself
// ---------------------------------------------------------------------

/// Lower-case ASCII letters, digits and `_`: the characters of setting keys
/// and of the values the library writes.
pub open spec fn is_token_char(c: char) -> bool {
    (97 <= (c as u32) <= 122) || (48 <= (c as u32) <= 57) || (c as u32) == 95
}

pub open spec fn is_token(s: Seq<char>) -> bool {
    s.len() > 0 && forall|i: int| 0 <= i < s.len() ==> #[trigger] is_token_char(s[i])
}

/// A line that `str::lines` gives back unchanged once a `\n` follows it.
pub open spec fn is_plain_line(l: Seq<char>) -> bool {
    &&& forall|i: int| 0 <= i < l.len() ==> #[trigger] l[i] != '\n'
    &&& (l.len() == 0 || l.last() != '\r')
}

pub proof fn lemma_split_once_absent(s: Seq<char>, sep: char)
    requires
        forall|i: int| 0 <= i < s.len() ==> #[trigger] s[i] != sep,
    ensures
        split_once(s, sep) is None,
    decreases s.len(),
{
    if s.len() > 0 {
        lemma_split_once_absent(s.drop_last(), sep);
    }
}

proof fn lemma_lines_append(a: Seq<char>, l: Seq<char>)
    requires
        lines_state(a).1.len() == 0,
        forall|i: int| 0 <= i < l.len() ==> #[trigger] l[i] != '\n',
    ensures
        lines_state(a + l) == (lines_state(a).0, l),
    decreases l.len(),
{
    if l.len() == 0 {
        assert(a + l =~= a);
        assert(lines_state(a).1 =~= l);
    } else {
        lemma_lines_append(a, l.drop_last());
        assert((a + l).drop_last() =~= a + l.drop_last());
        assert(l.drop_last().push(l.last()) =~= l);
    }
}

/// `str::lines` splits text written line by line back into its lines.
pub proof fn lemma_lines_join(ls: Seq<Seq<char>>)
    requires
        forall|k: int| 0 <= k < ls.len() ==> is_plain_line(#[trigger] ls[k]),
    ensures
        lines_state(join_lines(ls)) == (ls, Seq::<char>::empty()),
        lines(join_lines(ls)) == ls,
    decreases ls.len(),
{
    if ls.len() == 0 {
        assert(lines_state(join_lines(ls)).0 =~= ls);
    } else {
        let prev = ls.drop_last();
        assert forall|k: int| 0 <= k < prev.len() implies is_plain_line(#[trigger] prev[k]) by {
            assert(prev[k] == ls[k]);
        }
        lemma_lines_join(prev);
        let a = join_lines(prev);
        let l = ls.last();
        assert(is_plain_line(ls[ls.len() - 1]));
        lemma_lines_append(a, l);
        let b = a + l;
        assert((b + seq!['\n']).drop_last() =~= b);
        assert((b + seq!['\n']).last() == '\n');
        assert(prev.push(l) =~= ls);
    }
}

pub proof fn lemma_token_not_space(c: char)
    requires
        is_token_char(c),
    ensures
        !is_ws(c),
        c != '\n',
        c != '\r',
        c != '#',
        c != '=',
{
}

/// A `key = value` line of tokens reads back as that setting.
pub proof fn lemma_setting_line(key: Seq<char>, value: Seq<char>)
    requires
        is_token(key),
        is_token(value),
    ensures
        is_plain_line(setting_line(key, value)),
        forall|c: Config, line_no: nat|
            #[trigger] apply_line(c, setting_line(key, value), line_no) == apply_setting(
                c,
                key,
                value,
            ),
{
    reveal_strlit(" = ");
    let line = setting_line(key, value);
    let n = key.len() as int;
    assert(line.len() == n + 3 + value.len());
    assert forall|i: int| 0 <= i < line.len() implies #[trigger] line[i] != '\n' && line[i]
        != '#' && (i != n + 1 ==> line[i] != '=') by {
        if i < n {
            assert(line[i] == key[i]);
            lemma_token_not_space(key[i]);
        } else if i >= n + 3 {
            assert(line[i] == value[i - n - 3]);
            lemma_token_not_space(value[i - n - 3]);
        }
    }
    assert(line.last() == value.last());
    lemma_token_not_space(value.last());
    assert(value.last() == value[value.len() - 1]);
    lemma_token_not_space(key[0]);
    assert(line[0] == key[0]);
    // No comment, nothing to trim.
    lemma_split_once_absent(line, '#');
    assert(strip_comment(line) == line);
    assert(trim_start(line) == line);
    assert(trim_end(line) == line);
    assert(trim(line) == line);
    // Split at the `=`.
    let left = line.subrange(0, n + 1);
    assert forall|i: int| 0 <= i < left.len() implies #[trigger] left[i] != '=' by {
        assert(left[i] == line[i]);
    }
    lemma_split_once_absent(left, '=');
    lemma_split_once_after(line, '=', n + 1);
    let right = line.subrange(n + 2, line.len() as int);
    assert(left =~= key.push(' '));
    assert(right =~= seq![' '] + value);
    // The key loses its trailing space.
    assert(trim_start(left) == left);
    assert(left.drop_last() =~= key);
    assert(key.last() == key[key.len() - 1]);
    lemma_token_not_space(key.last());
    assert(trim_end(key) == key);
    assert(trim_end(left) == key);
    // The value loses its leading space.
    assert(right.drop_first() =~= value);
    lemma_token_not_space(value[0]);
    assert(trim_start(value) == value);
    assert(trim_start(right) == value);
    assert(trim_end(value) == value);
}

proof fn lemma_decimal_token(n: nat)
    ensures
        is_token(decimal(n)),
{
    lemma_decimal_shape(n);
    assert forall|i: int| 0 <= i < decimal(n).len() implies #[trigger] is_token_char(
        decimal(n)[i],
    ) by {
        assert(is_digit(decimal(n)[i]));
    }
}

proof fn lemma_bool_token(b: bool)
    ensures
        is_token(bool_text(b)),
{
    reveal_strlit("true");
    reveal_strlit("false");
}


proof fn lemma_keys_are_tokens()
    ensures
        is_token("max_blocks_per_operation"@),
        is_token("blocks_per_tick"@),
        is_token("max_queued_operations"@),
        is_token("max_queued_blocks"@),
        is_token("max_history_entries"@),
        is_token("max_history_blocks"@),
        is_token("fast_mode"@),
        is_token("notify_clients"@),
        is_token("update_check_enabled"@),
        is_token("update_notify_on_join"@),
{
    reveal_strlit("max_blocks_per_operation");
    reveal_strlit("blocks_per_tick");
    reveal_strlit("max_queued_operations");
    reveal_strlit("max_queued_blocks");
    reveal_strlit("max_history_entries");
    reveal_strlit("max_history_blocks");
    reveal_strlit("fast_mode");
    reveal_strlit("notify_clients");
    reveal_strlit("update_check_enabled");
    reveal_strlit("update_notify_on_join");
}

proof fn lemma_key_literals()
    ensures
        "max_blocks_per_operation"@.len() == 24,
        "blocks_per_tick"@.len() == 15,
        "max_queued_operations"@.len() == 21,
        "max_queued_blocks"@.len() == 17,
        "max_history_entries"@.len() == 19,
        "max_history_blocks"@.len() == 18,
        "fast_mode"@.len() == 9,
        "notify_clients"@.len() == 14,
        "update_check_enabled"@.len() == 20,
        "update_notify_on_join"@.len() == 21,
        "max_queued_operations"@[0] == 'm',
        "update_notify_on_join"@[0] == 'u',
{
    reveal_strlit("max_blocks_per_operation");
    reveal_strlit("blocks_per_tick");
    reveal_strlit("max_queued_operations");
    reveal_strlit("max_queued_blocks");
    reveal_strlit("max_history_entries");
    reveal_strlit("max_history_blocks");
    reveal_strlit("fast_mode");
    reveal_strlit("notify_clients");
    reveal_strlit("update_check_enabled");
    reveal_strlit("update_notify_on_join");
}

proof fn lemma_apply_integer_settings(c: Config, p: Config)
    ensures
        apply_setting(p, "max_blocks_per_operation"@, decimal(c.max_blocks_per_operation as nat))
            == Ok::<Config, Seq<char>>(
            Config { max_blocks_per_operation: c.max_blocks_per_operation, ..p },
        ),
        apply_setting(p, "blocks_per_tick"@, decimal(c.blocks_per_tick as nat)) == Ok::<
            Config,
            Seq<char>,
        >(Config { blocks_per_tick: c.blocks_per_tick, ..p }),
        apply_setting(p, "max_queued_operations"@, decimal(c.max_queued_operations as nat))
            == Ok::<Config, Seq<char>>(
            Config { max_queued_operations: c.max_queued_operations, ..p },
        ),
        apply_setting(p, "max_queued_blocks"@, decimal(c.max_queued_blocks as nat)) == Ok::<
            Config,
            Seq<char>,
        >(Config { max_queued_blocks: c.max_queued_blocks, ..p }),
        apply_setting(p, "max_history_entries"@, decimal(c.max_history_entries as nat))
            == Ok::<Config, Seq<char>>(
            Config { max_history_entries: c.max_history_entries, ..p },
        ),
        apply_setting(p, "max_history_blocks"@, decimal(c.max_history_blocks as nat)) == Ok::<
            Config,
            Seq<char>,
        >(Config { max_history_blocks: c.max_history_blocks, ..p }),
{
    lemma_key_literals();
    lemma_parse_decimal(c.max_blocks_per_operation as nat, u64::MAX as nat);
    lemma_parse_decimal(c.blocks_per_tick as nat, usize::MAX as nat);
    lemma_parse_decimal(c.max_queued_operations as nat, usize::MAX as nat);
    lemma_parse_decimal(c.max_queued_blocks as nat, u64::MAX as nat);
    lemma_parse_decimal(c.max_history_entries as nat, usize::MAX as nat);
    lemma_parse_decimal(c.max_history_blocks as nat, usize::MAX as nat);
}

proof fn lemma_apply_flag_settings(c: Config, p: Config)
    ensures
        apply_setting(p, "fast_mode"@, bool_text(c.fast_mode)) == Ok::<Config, Seq<char>>(
            Config { fast_mode: c.fast_mode, ..p },
        ),
        apply_setting(p, "notify_clients"@, bool_text(c.notify_clients)) == Ok::<
            Config,
            Seq<char>,
        >(Config { notify_clients: c.notify_clients, ..p }),
        apply_setting(p, "update_check_enabled"@, bool_text(c.update_check_enabled)) == Ok::<
            Config,
            Seq<char>,
        >(Config { update_check_enabled: c.update_check_enabled, ..p }),
        apply_setting(p, "update_notify_on_join"@, bool_text(c.update_notify_on_join)) == Ok::<
            Config,
            Seq<char>,
        >(Config { update_notify_on_join: c.update_notify_on_join, ..p }),
{
    lemma_key_literals();
    reveal_strlit("true");
    reveal_strlit("false");
}

proof fn lemma_config_text_lines(c: Config)
    ensures
        lines(spec_config_toml(c)) == config_lines(c),
        forall|p: Config, n: nat|
            #[trigger] apply_line(p, config_lines(c)[0], n) == apply_setting(
                p,
                "max_blocks_per_operation"@,
                decimal(c.max_blocks_per_operation as nat),
            ),
        forall|p: Config, n: nat|
            #[trigger] apply_line(p, config_lines(c)[1], n) == apply_setting(
                p,
                "blocks_per_tick"@,
                decimal(c.blocks_per_tick as nat),
            ),
        forall|p: Config, n: nat|
            #[trigger] apply_line(p, config_lines(c)[2], n) == apply_setting(
                p,
                "max_queued_operations"@,
                decimal(c.max_queued_operations as nat),
            ),
        forall|p: Config, n: nat|
            #[trigger] apply_line(p, config_lines(c)[3], n) == apply_setting(
                p,
                "max_queued_blocks"@,
                decimal(c.max_queued_blocks as nat),
            ),
        forall|p: Config, n: nat|
            #[trigger] apply_line(p, config_lines(c)[4], n) == apply_setting(
                p,
                "max_history_entries"@,
                decimal(c.max_history_entries as nat),
            ),
        forall|p: Config, n: nat|
            #[trigger] apply_line(p, config_lines(c)[5], n) == apply_setting(
                p,
                "max_history_blocks"@,
                decimal(c.max_history_blocks as nat),
            ),
        forall|p: Config, n: nat|
            #[trigger] apply_line(p, config_lines(c)[6], n) == apply_setting(
                p,
                "fast_mode"@,
                bool_text(c.fast_mode),
            ),
        forall|p: Config, n: nat|
            #[trigger] apply_line(p, config_lines(c)[7], n) == apply_setting(
                p,
                "notify_clients"@,
                bool_text(c.notify_clients),
            ),
        forall|p: Config, n: nat|
            #[trigger] apply_line(p, config_lines(c)[8], n) == apply_setting(
                p,
                "update_check_enabled"@,
                bool_text(c.update_check_enabled),
            ),
        forall|p: Config, n: nat|
            #[trigger] apply_line(p, config_lines(c)[9], n) == apply_setting(
                p,
                "update_notify_on_join"@,
                bool_text(c.update_notify_on_join),
            ),
{
    let ls = config_lines(c);
    lemma_keys_are_tokens();
    lemma_decimal_token(c.max_blocks_per_operation as nat);
    lemma_decimal_token(c.blocks_per_tick as nat);
    lemma_decimal_token(c.max_queued_operations as nat);
    lemma_decimal_token(c.max_queued_blocks as nat);
    lemma_decimal_token(c.max_history_entries as nat);
    lemma_decimal_token(c.max_history_blocks as nat);
    lemma_bool_token(c.fast_mode);
    lemma_bool_token(c.notify_clients);
    lemma_bool_token(c.update_check_enabled);
    lemma_bool_token(c.update_notify_on_join);
    lemma_setting_line("max_blocks_per_operation"@, decimal(c.max_blocks_per_operation as nat));
    lemma_setting_line("blocks_per_tick"@, decimal(c.blocks_per_tick as nat));
    lemma_setting_line("max_queued_operations"@, decimal(c.max_queued_operations as nat));
    lemma_setting_line("max_queued_blocks"@, decimal(c.max_queued_blocks as nat));
    lemma_setting_line("max_history_entries"@, decimal(c.max_history_entries as nat));
    lemma_setting_line("max_history_blocks"@, decimal(c.max_history_blocks as nat));
    lemma_setting_line("fast_mode"@, bool_text(c.fast_mode));
    lemma_setting_line("notify_clients"@, bool_text(c.notify_clients));
    lemma_setting_line("update_check_enabled"@, bool_text(c.update_check_enabled));
    lemma_setting_line("update_notify_on_join"@, bool_text(c.update_notify_on_join));
    assert forall|k: int| 0 <= k < ls.len() implies is_plain_line(#[trigger] ls[k]) by {
        if k == 0 {} else if k == 1 {} else if k == 2 {} else if k == 3 {} else if k == 4 {
        } else if k == 5 {} else if k == 6 {} else if k == 7 {} else if k == 8 {} else {}
    }
    lemma_lines_join(ls);
}

/// `p` with the `k`-th stored setting taken from `c`.
pub open spec fn take_setting(c: Config, p: Config, k: int) -> Config {
    if k == 0 {
        Config { max_blocks_per_operation: c.max_blocks_per_operation, ..p }
    } else if k == 1 {
        Config { blocks_per_tick: c.blocks_per_tick, ..p }
    } else if k == 2 {
        Config { max_queued_operations: c.max_queued_operations, ..p }
    } else if k == 3 {
        Config { max_queued_blocks: c.max_queued_blocks, ..p }
    } else if k == 4 {
        Config { max_history_entries: c.max_history_entries, ..p }
    } else if k == 5 {
        Config { max_history_blocks: c.max_history_blocks, ..p }
    } else if k == 6 {
        Config { fast_mode: c.fast_mode, ..p }
    } else if k == 7 {
        Config { notify_clients: c.notify_clients, ..p }
    } else if k == 8 {
        Config { update_check_enabled: c.update_check_enabled, ..p }
    } else {
        Config { update_notify_on_join: c.update_notify_on_join, ..p }
    }
}

proof fn lemma_read_step(c: Config, p: Config, k: int)
    requires
        0 <= k < 10,
        parse_lines(config_lines(c), k as nat) == Ok::<Config, Seq<char>>(p),
    ensures
        parse_lines(config_lines(c), (k + 1) as nat) == Ok::<Config, Seq<char>>(
            take_setting(c, p, k),
        ),
{
    let ls = config_lines(c);
    lemma_config_text_lines(c);
    if k < 6 {
        lemma_apply_integer_settings(c, p);
    } else {
        lemma_apply_flag_settings(c, p);
    }
    assert(apply_line(p, ls[k], (k + 1) as nat) == Ok::<Config, Seq<char>>(
        take_setting(c, p, k),
    ));
}

/// Reading back the text that `config_toml` writes gives the same
/// configuration.
pub proof fn lemma_config_roundtrip(c: Config)
    ensures
        spec_parse_config(spec_config_toml(c)) == Ok::<Config, Seq<char>>(c),
{
    let ls = config_lines(c);
    lemma_config_text_lines(c);
    let c0 = default_config();
    lemma_read_step(c, c0, 0);
    let c1 = take_setting(c, c0, 0);
    lemma_read_step(c, c1, 1);
    let c2 = take_setting(c, c1, 1);
    lemma_read_step(c, c2, 2);
    let c3 = take_setting(c, c2, 2);
    lemma_read_step(c, c3, 3);
    let c4 = take_setting(c, c3, 3);
    lemma_read_step(c, c4, 4);
    let c5 = take_setting(c, c4, 4);
    lemma_read_step(c, c5, 5);
    let c6 = take_setting(c, c5, 5);
    lemma_read_step(c, c6, 6);
    let c7 = take_setting(c, c6, 6);
    lemma_read_step(c, c7, 7);
    let c8 = take_setting(c, c7, 7);
    lemma_read_step(c, c8, 8);
    let c9 = take_setting(c, c8, 8);
    lemma_read_step(c, c9, 9);
    let c10 = take_setting(c, c9, 9);
    assert(c10 == c);
}

/// A valid configuration stored in its normal form loads as itself, and
/// loading writes nothing back.
pub proof fn lemma_load_stored(c: Config, path: Seq<char>)
    requires
        spec_validate(c) is Ok,
    ensures
        spec_load(Some(spec_config_toml(c)), path) == Ok::<(Config, Option<Seq<char>>), Seq<char>>(
            (c, None),
        ),
{
    lemma_config_roundtrip(c);
}

} // verus!
