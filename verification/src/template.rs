//! The configuration file that is written on the first run.

use vstd::prelude::*;

use crate::config::{empty_config, valid_config, ConfigView};
use crate::i18n::Lang;
use crate::text::{split, split_at_last_separator, split_without_separator};

verus! {

/// The lines of the English template. Every line is blank or a comment, so that
/// nothing is active before it is edited.
pub const EN_LINES: [&'static str; 54] = [
    "# aetheris default configuration - auto-generated on first run.",
    "# Edit via `aetheris ui` or this file; the service reads this at startup and on",
    "# `ReloadConfig`. Everything below is commented as a template: uncomment to",
    "# enable.",
    "",
    "# [game]",
    "# boost_on_start = true",
    "# processes = [\"steam_app_*.exe\", \"game.exe\"]",
    "",
    "# # Opt-in: purge the Windows standby memory list once on game-mode entry so the",
    "# # game's working set can grow from free pages. Off by default. Not reversible,",
    "# # but harmless (the OS rebuilds its standby list as needed).",
    "# purge_standby_on_boost = false",
    "",
    "# # Processes throttled while a game is running. Each entry is matched",
    "# # case-insensitively as a substring against the process image name.",
    "# [[background]]",
    "# name = \"chrome.exe\"",
    "# suspend = false",
    "# priority = \"below_normal\"",
    "# # Real cross-process CPU cap via a Job Object (hard cap). `qos_cpu_quota` is a",
    "# # percentage of the machine's total CPU capacity (0.01% units internally,",
    "# # CpuRate = quota * 100). Only applied to processes NOT already in a job; a",
    "# # process that is already job-bound degrades to no-cap with a warn (priority /",
    "# # affinity still apply). The cap clears when the game exits or the service",
    "# # stops. Note: browsers and many apps are already in a job, so QoS often won't",
    "# # bind on them - it works cleanly for processes aetheris launches fresh.",
    "# qos_cpu_quota = 50",
    "",
    "# [[background]]",
    "# name = \"msedge.exe\"",
    "# suspend = false",
    "# priority = \"below_normal\"",
    "",
    "# # Memory trim is explicit opt-in and only safe for non-critical apps.",
    "# [[background]]",
    "# name = \"spotify.exe\"",
    "# trim_memory = true",
    "",
    "# # Always-on rules (any mode).",
    "# [[rule]]",
    "# name = \"updater.exe\"",
    "# priority = \"idle\"",
    "",
    "# # Extra protected processes (defaults can never be removed).",
    "# protected_extra = []",
    "",
    "# # Network QoS tweaks are explicit opt-in (all flags default to false) and are",
    "# # applied on game-mode entry, then reverted on exit. They write registry values",
    "# # under HKLM, so the service must be elevated to use them.",
    "# [network]",
    "# enabled = true",
    "# nagle = true",
    "# netbios = false",
];

/// The lines of the Chinese template: the settings of the English one with
/// translated comments.
pub const ZH_LINES: [&'static str; 52] = [
    "# aetheris 默认配置 - 首次运行时自动生成。",
    "# 可通过 `aetheris ui` 或本文件编辑;服务在启动及收到",
    "# `ReloadConfig` 时读取。以下全部以注释形式作为模板:取消注释以启用。",
    "",
    "# [game]",
    "# boost_on_start = true",
    "# processes = [\"steam_app_*.exe\", \"game.exe\"]",
    "",
    "# # 可选:进入游戏模式时清理一次 Windows 待机内存列表,以便游戏的",
    "# # 工作集可以使用空闲内存页。默认关闭。不可逆,但无害",
    "# # (系统会在需要时重建待机列表)。",
    "# purge_standby_on_boost = false",
    "",
    "# # 游戏运行时被节流的进程。每个条目按进程映像名,不区分大小写,",
    "# # 以子串方式匹配。",
    "# [[background]]",
    "# name = \"chrome.exe\"",
    "# suspend = false",
    "# priority = \"below_normal\"",
    "# # 通过 Job Object 实现真正的跨进程 CPU 上限(硬上限)。`qos_cpu_quota`",
    "# # 是机器总 CPU 容量的百分比(内部以 0.01% 为单位,CpuRate = quota * 100)。",
    "# # 仅应用于尚不在任何 Job 中的进程;已在 Job 中的进程会降级为无上限并",
    "# # 发出警告(优先级 / 亲和性仍然生效)。上限在游戏退出或服务停止时清除。",
    "# # 注意:浏览器和许多应用已经在 Job 中,因此 QoS 往往无法绑定它们 -",
    "# # 它对 aetheris 新启动的进程工作良好。",
    "# qos_cpu_quota = 50",
    "",
    "# [[background]]",
    "# name = \"msedge.exe\"",
    "# suspend = false",
    "# priority = \"below_normal\"",
    "",
    "# # 内存清理是显式选择,只对非关键应用安全。",
    "# [[background]]",
    "# name = \"spotify.exe\"",
    "# trim_memory = true",
    "",
    "# # 始终生效的规则(任意模式)。",
    "# [[rule]]",
    "# name = \"updater.exe\"",
    "# priority = \"idle\"",
    "",
    "# # 额外保护进程(默认项永远无法移除)。",
    "# protected_extra = []",
    "",
    "# # 网络 QoS 调整是显式选择(所有标志默认均为 false),在进入游戏模式时",
    "# # 应用,退出时还原。它们写入 HKLM 下的注册表值,因此服务必须以管理员",
    "# # 权限运行才能使用。",
    "# [network]",
    "# enabled = true",
    "# nagle = true",
    "# netbios = false",
];

/// Lines as one text, each with a line break behind it.
pub open spec fn joined(lines: Seq<&'static str>) -> Seq<char>
    decreases lines.len(),
{
    if lines.len() == 0 {
        Seq::empty()
    } else {
        joined(lines.drop_last()) + lines.last()@ + "\n"@
    }
}

/// The template for a language.
pub open spec fn template(lang: Lang) -> Seq<char> {
    match lang {
        Lang::En => joined(EN_LINES@),
        Lang::Zh => joined(ZH_LINES@),
    }
}

fn join(lines: &[&'static str]) -> (r: String)
    ensures
        r@ == joined(lines@),
{
    let mut r = String::new();
    let mut i: usize = 0;
    assert(r@ =~= joined(lines@.take(0)));
    while i < lines.len()
        invariant
            i <= lines@.len(),
            r@ == joined(lines@.take(i as int)),
        decreases lines@.len() - i,
    {
        assert(lines@.take(i + 1).drop_last() =~= lines@.take(i as int));
        r.append(lines[i]);
        r.append("\n");
        i = i + 1;
    }
    assert(lines@.take(i as int) =~= lines@);
    r
}

/// The configuration file written on the first run.
pub fn default_config_str(lang: Lang) -> (r: String)
    ensures
        r@ == template(lang),
{
    match lang {
        Lang::En => join(EN_LINES.as_slice()),
        Lang::Zh => join(ZH_LINES.as_slice()),
    }
}

// ---------------------------------------------------------------------------
// Nothing in a template is active
// ---------------------------------------------------------------------------
/// The line is blank or a comment.
pub open spec fn is_inactive(line: Seq<char>) -> bool {
    line.len() == 0 || line[0] == '#'
}

spec fn unbroken_upto(line: Seq<char>, n: nat) -> bool
    decreases n,
{
    n == 0 || (line[n - 1] != '\n' && unbroken_upto(line, (n - 1) as nat))
}

spec fn is_inactive_line(line: Seq<char>) -> bool {
    is_inactive(line) && unbroken_upto(line, line.len())
}

spec fn inactive_upto(lines: Seq<&'static str>, n: nat) -> bool
    decreases n,
{
    n == 0 || (is_inactive_line(lines[n - 1]@) && inactive_upto(lines, (n - 1) as nat))
}

proof fn en_1()
    ensures
        inactive_upto(EN_LINES@, 4),
{
    assert(is_inactive_line(EN_LINES@[0]@)) by {
        reveal_strlit("# aetheris default configuration - auto-generated on first run.");
        reveal_with_fuel(unbroken_upto, 64);
    }
    assert(is_inactive_line(EN_LINES@[1]@)) by {
        reveal_strlit("# Edit via `aetheris ui` or this file; the service reads this at startup and on");
        reveal_with_fuel(unbroken_upto, 80);
    }
    assert(is_inactive_line(EN_LINES@[2]@)) by {
        reveal_strlit("# `ReloadConfig`. Everything below is commented as a template: uncomment to");
        reveal_with_fuel(unbroken_upto, 76);
    }
    assert(is_inactive_line(EN_LINES@[3]@)) by {
        reveal_strlit("# enable.");
        reveal_with_fuel(unbroken_upto, 10);
    }
    reveal_with_fuel(inactive_upto, 5);
}

proof fn en_2()
    ensures
        inactive_upto(EN_LINES@, 8),
{
    en_1();
    assert(is_inactive_line(EN_LINES@[4]@)) by {
        reveal_strlit("");
        reveal_with_fuel(unbroken_upto, 1);
    }
    assert(is_inactive_line(EN_LINES@[5]@)) by {
        reveal_strlit("# [game]");
        reveal_with_fuel(unbroken_upto, 9);
    }
    assert(is_inactive_line(EN_LINES@[6]@)) by {
        reveal_strlit("# boost_on_start = true");
        reveal_with_fuel(unbroken_upto, 24);
    }
    assert(is_inactive_line(EN_LINES@[7]@)) by {
        reveal_strlit("# processes = [\"steam_app_*.exe\", \"game.exe\"]");
        reveal_with_fuel(unbroken_upto, 46);
    }
    reveal_with_fuel(inactive_upto, 5);
}

proof fn en_3()
    ensures
        inactive_upto(EN_LINES@, 12),
{
    en_2();
    assert(is_inactive_line(EN_LINES@[8]@)) by {
        reveal_strlit("");
        reveal_with_fuel(unbroken_upto, 1);
    }
    assert(is_inactive_line(EN_LINES@[9]@)) by {
        reveal_strlit("# # Opt-in: purge the Windows standby memory list once on game-mode entry so the");
        reveal_with_fuel(unbroken_upto, 81);
    }
    assert(is_inactive_line(EN_LINES@[10]@)) by {
        reveal_strlit("# # game's working set can grow from free pages. Off by default. Not reversible,");
        reveal_with_fuel(unbroken_upto, 81);
    }
    assert(is_inactive_line(EN_LINES@[11]@)) by {
        reveal_strlit("# # but harmless (the OS rebuilds its standby list as needed).");
        reveal_with_fuel(unbroken_upto, 63);
    }
    reveal_with_fuel(inactive_upto, 5);
}

proof fn en_4()
    ensures
        inactive_upto(EN_LINES@, 16),
{
    en_3();
    assert(is_inactive_line(EN_LINES@[12]@)) by {
        reveal_strlit("# purge_standby_on_boost = false");
        reveal_with_fuel(unbroken_upto, 33);
    }
    assert(is_inactive_line(EN_LINES@[13]@)) by {
        reveal_strlit("");
        reveal_with_fuel(unbroken_upto, 1);
    }
    assert(is_inactive_line(EN_LINES@[14]@)) by {
        reveal_strlit("# # Processes throttled while a game is running. Each entry is matched");
        reveal_with_fuel(unbroken_upto, 71);
    }
    assert(is_inactive_line(EN_LINES@[15]@)) by {
        reveal_strlit("# # case-insensitively as a substring against the process image name.");
        reveal_with_fuel(unbroken_upto, 70);
    }
    reveal_with_fuel(inactive_upto, 5);
}

proof fn en_5()
    ensures
        inactive_upto(EN_LINES@, 20),
{
    en_4();
    assert(is_inactive_line(EN_LINES@[16]@)) by {
        reveal_strlit("# [[background]]");
        reveal_with_fuel(unbroken_upto, 17);
    }
    assert(is_inactive_line(EN_LINES@[17]@)) by {
        reveal_strlit("# name = \"chrome.exe\"");
        reveal_with_fuel(unbroken_upto, 22);
    }
    assert(is_inactive_line(EN_LINES@[18]@)) by {
        reveal_strlit("# suspend = false");
        reveal_with_fuel(unbroken_upto, 18);
    }
    assert(is_inactive_line(EN_LINES@[19]@)) by {
        reveal_strlit("# priority = \"below_normal\"");
        reveal_with_fuel(unbroken_upto, 28);
    }
    reveal_with_fuel(inactive_upto, 5);
}

proof fn en_6()
    ensures
        inactive_upto(EN_LINES@, 24),
{
    en_5();
    assert(is_inactive_line(EN_LINES@[20]@)) by {
        reveal_strlit("# # Real cross-process CPU cap via a Job Object (hard cap). `qos_cpu_quota` is a");
        reveal_with_fuel(unbroken_upto, 81);
    }
    assert(is_inactive_line(EN_LINES@[21]@)) by {
        reveal_strlit("# # percentage of the machine's total CPU capacity (0.01% units internally,");
        reveal_with_fuel(unbroken_upto, 76);
    }
    assert(is_inactive_line(EN_LINES@[22]@)) by {
        reveal_strlit("# # CpuRate = quota * 100). Only applied to processes NOT already in a job; a");
        reveal_with_fuel(unbroken_upto, 78);
    }
    assert(is_inactive_line(EN_LINES@[23]@)) by {
        reveal_strlit("# # process that is already job-bound degrades to no-cap with a warn (priority /");
        reveal_with_fuel(unbroken_upto, 81);
    }
    reveal_with_fuel(inactive_upto, 5);
}

proof fn en_7()
    ensures
        inactive_upto(EN_LINES@, 28),
{
    en_6();
    assert(is_inactive_line(EN_LINES@[24]@)) by {
        reveal_strlit("# # affinity still apply). The cap clears when the game exits or the service");
        reveal_with_fuel(unbroken_upto, 77);
    }
    assert(is_inactive_line(EN_LINES@[25]@)) by {
        reveal_strlit("# # stops. Note: browsers and many apps are already in a job, so QoS often won't");
        reveal_with_fuel(unbroken_upto, 81);
    }
    assert(is_inactive_line(EN_LINES@[26]@)) by {
        reveal_strlit("# # bind on them - it works cleanly for processes aetheris launches fresh.");
        reveal_with_fuel(unbroken_upto, 75);
    }
    assert(is_inactive_line(EN_LINES@[27]@)) by {
        reveal_strlit("# qos_cpu_quota = 50");
        reveal_with_fuel(unbroken_upto, 21);
    }
    reveal_with_fuel(inactive_upto, 5);
}

proof fn en_8()
    ensures
        inactive_upto(EN_LINES@, 32),
{
    en_7();
    assert(is_inactive_line(EN_LINES@[28]@)) by {
        reveal_strlit("");
        reveal_with_fuel(unbroken_upto, 1);
    }
    assert(is_inactive_line(EN_LINES@[29]@)) by {
        reveal_strlit("# [[background]]");
        reveal_with_fuel(unbroken_upto, 17);
    }
    assert(is_inactive_line(EN_LINES@[30]@)) by {
        reveal_strlit("# name = \"msedge.exe\"");
        reveal_with_fuel(unbroken_upto, 22);
    }
    assert(is_inactive_line(EN_LINES@[31]@)) by {
        reveal_strlit("# suspend = false");
        reveal_with_fuel(unbroken_upto, 18);
    }
    reveal_with_fuel(inactive_upto, 5);
}

proof fn en_9()
    ensures
        inactive_upto(EN_LINES@, 36),
{
    en_8();
    assert(is_inactive_line(EN_LINES@[32]@)) by {
        reveal_strlit("# priority = \"below_normal\"");
        reveal_with_fuel(unbroken_upto, 28);
    }
    assert(is_inactive_line(EN_LINES@[33]@)) by {
        reveal_strlit("");
        reveal_with_fuel(unbroken_upto, 1);
    }
    assert(is_inactive_line(EN_LINES@[34]@)) by {
        reveal_strlit("# # Memory trim is explicit opt-in and only safe for non-critical apps.");
        reveal_with_fuel(unbroken_upto, 72);
    }
    assert(is_inactive_line(EN_LINES@[35]@)) by {
        reveal_strlit("# [[background]]");
        reveal_with_fuel(unbroken_upto, 17);
    }
    reveal_with_fuel(inactive_upto, 5);
}

proof fn en_10()
    ensures
        inactive_upto(EN_LINES@, 40),
{
    en_9();
    assert(is_inactive_line(EN_LINES@[36]@)) by {
        reveal_strlit("# name = \"spotify.exe\"");
        reveal_with_fuel(unbroken_upto, 23);
    }
    assert(is_inactive_line(EN_LINES@[37]@)) by {
        reveal_strlit("# trim_memory = true");
        reveal_with_fuel(unbroken_upto, 21);
    }
    assert(is_inactive_line(EN_LINES@[38]@)) by {
        reveal_strlit("");
        reveal_with_fuel(unbroken_upto, 1);
    }
    assert(is_inactive_line(EN_LINES@[39]@)) by {
        reveal_strlit("# # Always-on rules (any mode).");
        reveal_with_fuel(unbroken_upto, 32);
    }
    reveal_with_fuel(inactive_upto, 5);
}

proof fn en_11()
    ensures
        inactive_upto(EN_LINES@, 44),
{
    en_10();
    assert(is_inactive_line(EN_LINES@[40]@)) by {
        reveal_strlit("# [[rule]]");
        reveal_with_fuel(unbroken_upto, 11);
    }
    assert(is_inactive_line(EN_LINES@[41]@)) by {
        reveal_strlit("# name = \"updater.exe\"");
        reveal_with_fuel(unbroken_upto, 23);
    }
    assert(is_inactive_line(EN_LINES@[42]@)) by {
        reveal_strlit("# priority = \"idle\"");
        reveal_with_fuel(unbroken_upto, 20);
    }
    assert(is_inactive_line(EN_LINES@[43]@)) by {
        reveal_strlit("");
        reveal_with_fuel(unbroken_upto, 1);
    }
    reveal_with_fuel(inactive_upto, 5);
}

proof fn en_12()
    ensures
        inactive_upto(EN_LINES@, 48),
{
    en_11();
    assert(is_inactive_line(EN_LINES@[44]@)) by {
        reveal_strlit("# # Extra protected processes (defaults can never be removed).");
        reveal_with_fuel(unbroken_upto, 63);
    }
    assert(is_inactive_line(EN_LINES@[45]@)) by {
        reveal_strlit("# protected_extra = []");
        reveal_with_fuel(unbroken_upto, 23);
    }
    assert(is_inactive_line(EN_LINES@[46]@)) by {
        reveal_strlit("");
        reveal_with_fuel(unbroken_upto, 1);
    }
    assert(is_inactive_line(EN_LINES@[47]@)) by {
        reveal_strlit("# # Network QoS tweaks are explicit opt-in (all flags default to false) and are");
        reveal_with_fuel(unbroken_upto, 80);
    }
    reveal_with_fuel(inactive_upto, 5);
}

proof fn en_13()
    ensures
        inactive_upto(EN_LINES@, 52),
{
    en_12();
    assert(is_inactive_line(EN_LINES@[48]@)) by {
        reveal_strlit("# # applied on game-mode entry, then reverted on exit. They write registry values");
        reveal_with_fuel(unbroken_upto, 82);
    }
    assert(is_inactive_line(EN_LINES@[49]@)) by {
        reveal_strlit("# # under HKLM, so the service must be elevated to use them.");
        reveal_with_fuel(unbroken_upto, 61);
    }
    assert(is_inactive_line(EN_LINES@[50]@)) by {
        reveal_strlit("# [network]");
        reveal_with_fuel(unbroken_upto, 12);
    }
    assert(is_inactive_line(EN_LINES@[51]@)) by {
        reveal_strlit("# enabled = true");
        reveal_with_fuel(unbroken_upto, 17);
    }
    reveal_with_fuel(inactive_upto, 5);
}

proof fn en_14()
    ensures
        inactive_upto(EN_LINES@, 54),
{
    en_13();
    assert(is_inactive_line(EN_LINES@[52]@)) by {
        reveal_strlit("# nagle = true");
        reveal_with_fuel(unbroken_upto, 15);
    }
    assert(is_inactive_line(EN_LINES@[53]@)) by {
        reveal_strlit("# netbios = false");
        reveal_with_fuel(unbroken_upto, 18);
    }
    reveal_with_fuel(inactive_upto, 3);
}

proof fn zh_1()
    ensures
        inactive_upto(ZH_LINES@, 4),
{
    assert(is_inactive_line(ZH_LINES@[0]@)) by {
        reveal_strlit("# aetheris 默认配置 - 首次运行时自动生成。");
        reveal_with_fuel(unbroken_upto, 29);
    }
    assert(is_inactive_line(ZH_LINES@[1]@)) by {
        reveal_strlit("# 可通过 `aetheris ui` 或本文件编辑;服务在启动及收到");
        reveal_with_fuel(unbroken_upto, 36);
    }
    assert(is_inactive_line(ZH_LINES@[2]@)) by {
        reveal_strlit("# `ReloadConfig` 时读取。以下全部以注释形式作为模板:取消注释以启用。");
        reveal_with_fuel(unbroken_upto, 44);
    }
    assert(is_inactive_line(ZH_LINES@[3]@)) by {
        reveal_strlit("");
        reveal_with_fuel(unbroken_upto, 1);
    }
    reveal_with_fuel(inactive_upto, 5);
}

proof fn zh_2()
    ensures
        inactive_upto(ZH_LINES@, 8),
{
    zh_1();
    assert(is_inactive_line(ZH_LINES@[4]@)) by {
        reveal_strlit("# [game]");
        reveal_with_fuel(unbroken_upto, 9);
    }
    assert(is_inactive_line(ZH_LINES@[5]@)) by {
        reveal_strlit("# boost_on_start = true");
        reveal_with_fuel(unbroken_upto, 24);
    }
    assert(is_inactive_line(ZH_LINES@[6]@)) by {
        reveal_strlit("# processes = [\"steam_app_*.exe\", \"game.exe\"]");
        reveal_with_fuel(unbroken_upto, 46);
    }
    assert(is_inactive_line(ZH_LINES@[7]@)) by {
        reveal_strlit("");
        reveal_with_fuel(unbroken_upto, 1);
    }
    reveal_with_fuel(inactive_upto, 5);
}

proof fn zh_3()
    ensures
        inactive_upto(ZH_LINES@, 12),
{
    zh_2();
    assert(is_inactive_line(ZH_LINES@[8]@)) by {
        reveal_strlit("# # 可选:进入游戏模式时清理一次 Windows 待机内存列表,以便游戏的");
        reveal_with_fuel(unbroken_upto, 40);
    }
    assert(is_inactive_line(ZH_LINES@[9]@)) by {
        reveal_strlit("# # 工作集可以使用空闲内存页。默认关闭。不可逆,但无害");
        reveal_with_fuel(unbroken_upto, 30);
    }
    assert(is_inactive_line(ZH_LINES@[10]@)) by {
        reveal_strlit("# # (系统会在需要时重建待机列表)。");
        reveal_with_fuel(unbroken_upto, 21);
    }
    assert(is_inactive_line(ZH_LINES@[11]@)) by {
        reveal_strlit("# purge_standby_on_boost = false");
        reveal_with_fuel(unbroken_upto, 33);
    }
    reveal_with_fuel(inactive_upto, 5);
}

proof fn zh_4()
    ensures
        inactive_upto(ZH_LINES@, 16),
{
    zh_3();
    assert(is_inactive_line(ZH_LINES@[12]@)) by {
        reveal_strlit("");
        reveal_with_fuel(unbroken_upto, 1);
    }
    assert(is_inactive_line(ZH_LINES@[13]@)) by {
        reveal_strlit("# # 游戏运行时被节流的进程。每个条目按进程映像名,不区分大小写,");
        reveal_with_fuel(unbroken_upto, 35);
    }
    assert(is_inactive_line(ZH_LINES@[14]@)) by {
        reveal_strlit("# # 以子串方式匹配。");
        reveal_with_fuel(unbroken_upto, 13);
    }
    assert(is_inactive_line(ZH_LINES@[15]@)) by {
        reveal_strlit("# [[background]]");
        reveal_with_fuel(unbroken_upto, 17);
    }
    reveal_with_fuel(inactive_upto, 5);
}

proof fn zh_5()
    ensures
        inactive_upto(ZH_LINES@, 20),
{
    zh_4();
    assert(is_inactive_line(ZH_LINES@[16]@)) by {
        reveal_strlit("# name = \"chrome.exe\"");
        reveal_with_fuel(unbroken_upto, 22);
    }
    assert(is_inactive_line(ZH_LINES@[17]@)) by {
        reveal_strlit("# suspend = false");
        reveal_with_fuel(unbroken_upto, 18);
    }
    assert(is_inactive_line(ZH_LINES@[18]@)) by {
        reveal_strlit("# priority = \"below_normal\"");
        reveal_with_fuel(unbroken_upto, 28);
    }
    assert(is_inactive_line(ZH_LINES@[19]@)) by {
        reveal_strlit("# # 通过 Job Object 实现真正的跨进程 CPU 上限(硬上限)。`qos_cpu_quota`");
        reveal_with_fuel(unbroken_upto, 55);
    }
    reveal_with_fuel(inactive_upto, 5);
}

proof fn zh_6()
    ensures
        inactive_upto(ZH_LINES@, 24),
{
    zh_5();
    assert(is_inactive_line(ZH_LINES@[20]@)) by {
        reveal_strlit("# # 是机器总 CPU 容量的百分比(内部以 0.01% 为单位,CpuRate = quota * 100)。");
        reveal_with_fuel(unbroken_upto, 58);
    }
    assert(is_inactive_line(ZH_LINES@[21]@)) by {
        reveal_strlit("# # 仅应用于尚不在任何 Job 中的进程;已在 Job 中的进程会降级为无上限并");
        reveal_with_fuel(unbroken_upto, 43);
    }
    assert(is_inactive_line(ZH_LINES@[22]@)) by {
        reveal_strlit("# # 发出警告(优先级 / 亲和性仍然生效)。上限在游戏退出或服务停止时清除。");
        reveal_with_fuel(unbroken_upto, 41);
    }
    assert(is_inactive_line(ZH_LINES@[23]@)) by {
        reveal_strlit("# # 注意:浏览器和许多应用已经在 Job 中,因此 QoS 往往无法绑定它们 -");
        reveal_with_fuel(unbroken_upto, 43);
    }
    reveal_with_fuel(inactive_upto, 5);
}

proof fn zh_7()
    ensures
        inactive_upto(ZH_LINES@, 28),
{
    zh_6();
    assert(is_inactive_line(ZH_LINES@[24]@)) by {
        reveal_strlit("# # 它对 aetheris 新启动的进程工作良好。");
        reveal_with_fuel(unbroken_upto, 28);
    }
    assert(is_inactive_line(ZH_LINES@[25]@)) by {
        reveal_strlit("# qos_cpu_quota = 50");
        reveal_with_fuel(unbroken_upto, 21);
    }
    assert(is_inactive_line(ZH_LINES@[26]@)) by {
        reveal_strlit("");
        reveal_with_fuel(unbroken_upto, 1);
    }
    assert(is_inactive_line(ZH_LINES@[27]@)) by {
        reveal_strlit("# [[background]]");
        reveal_with_fuel(unbroken_upto, 17);
    }
    reveal_with_fuel(inactive_upto, 5);
}

proof fn zh_8()
    ensures
        inactive_upto(ZH_LINES@, 32),
{
    zh_7();
    assert(is_inactive_line(ZH_LINES@[28]@)) by {
        reveal_strlit("# name = \"msedge.exe\"");
        reveal_with_fuel(unbroken_upto, 22);
    }
    assert(is_inactive_line(ZH_LINES@[29]@)) by {
        reveal_strlit("# suspend = false");
        reveal_with_fuel(unbroken_upto, 18);
    }
    assert(is_inactive_line(ZH_LINES@[30]@)) by {
        reveal_strlit("# priority = \"below_normal\"");
        reveal_with_fuel(unbroken_upto, 28);
    }
    assert(is_inactive_line(ZH_LINES@[31]@)) by {
        reveal_strlit("");
        reveal_with_fuel(unbroken_upto, 1);
    }
    reveal_with_fuel(inactive_upto, 5);
}

proof fn zh_9()
    ensures
        inactive_upto(ZH_LINES@, 36),
{
    zh_8();
    assert(is_inactive_line(ZH_LINES@[32]@)) by {
        reveal_strlit("# # 内存清理是显式选择,只对非关键应用安全。");
        reveal_with_fuel(unbroken_upto, 25);
    }
    assert(is_inactive_line(ZH_LINES@[33]@)) by {
        reveal_strlit("# [[background]]");
        reveal_with_fuel(unbroken_upto, 17);
    }
    assert(is_inactive_line(ZH_LINES@[34]@)) by {
        reveal_strlit("# name = \"spotify.exe\"");
        reveal_with_fuel(unbroken_upto, 23);
    }
    assert(is_inactive_line(ZH_LINES@[35]@)) by {
        reveal_strlit("# trim_memory = true");
        reveal_with_fuel(unbroken_upto, 21);
    }
    reveal_with_fuel(inactive_upto, 5);
}

proof fn zh_10()
    ensures
        inactive_upto(ZH_LINES@, 40),
{
    zh_9();
    assert(is_inactive_line(ZH_LINES@[36]@)) by {
        reveal_strlit("");
        reveal_with_fuel(unbroken_upto, 1);
    }
    assert(is_inactive_line(ZH_LINES@[37]@)) by {
        reveal_strlit("# # 始终生效的规则(任意模式)。");
        reveal_with_fuel(unbroken_upto, 19);
    }
    assert(is_inactive_line(ZH_LINES@[38]@)) by {
        reveal_strlit("# [[rule]]");
        reveal_with_fuel(unbroken_upto, 11);
    }
    assert(is_inactive_line(ZH_LINES@[39]@)) by {
        reveal_strlit("# name = \"updater.exe\"");
        reveal_with_fuel(unbroken_upto, 23);
    }
    reveal_with_fuel(inactive_upto, 5);
}

proof fn zh_11()
    ensures
        inactive_upto(ZH_LINES@, 44),
{
    zh_10();
    assert(is_inactive_line(ZH_LINES@[40]@)) by {
        reveal_strlit("# priority = \"idle\"");
        reveal_with_fuel(unbroken_upto, 20);
    }
    assert(is_inactive_line(ZH_LINES@[41]@)) by {
        reveal_strlit("");
        reveal_with_fuel(unbroken_upto, 1);
    }
    assert(is_inactive_line(ZH_LINES@[42]@)) by {
        reveal_strlit("# # 额外保护进程(默认项永远无法移除)。");
        reveal_with_fuel(unbroken_upto, 23);
    }
    assert(is_inactive_line(ZH_LINES@[43]@)) by {
        reveal_strlit("# protected_extra = []");
        reveal_with_fuel(unbroken_upto, 23);
    }
    reveal_with_fuel(inactive_upto, 5);
}

proof fn zh_12()
    ensures
        inactive_upto(ZH_LINES@, 48),
{
    zh_11();
    assert(is_inactive_line(ZH_LINES@[44]@)) by {
        reveal_strlit("");
        reveal_with_fuel(unbroken_upto, 1);
    }
    assert(is_inactive_line(ZH_LINES@[45]@)) by {
        reveal_strlit("# # 网络 QoS 调整是显式选择(所有标志默认均为 false),在进入游戏模式时");
        reveal_with_fuel(unbroken_upto, 44);
    }
    assert(is_inactive_line(ZH_LINES@[46]@)) by {
        reveal_strlit("# # 应用,退出时还原。它们写入 HKLM 下的注册表值,因此服务必须以管理员");
        reveal_with_fuel(unbroken_upto, 41);
    }
    assert(is_inactive_line(ZH_LINES@[47]@)) by {
        reveal_strlit("# # 权限运行才能使用。");
        reveal_with_fuel(unbroken_upto, 14);
    }
    reveal_with_fuel(inactive_upto, 5);
}

proof fn zh_13()
    ensures
        inactive_upto(ZH_LINES@, 52),
{
    zh_12();
    assert(is_inactive_line(ZH_LINES@[48]@)) by {
        reveal_strlit("# [network]");
        reveal_with_fuel(unbroken_upto, 12);
    }
    assert(is_inactive_line(ZH_LINES@[49]@)) by {
        reveal_strlit("# enabled = true");
        reveal_with_fuel(unbroken_upto, 17);
    }
    assert(is_inactive_line(ZH_LINES@[50]@)) by {
        reveal_strlit("# nagle = true");
        reveal_with_fuel(unbroken_upto, 15);
    }
    assert(is_inactive_line(ZH_LINES@[51]@)) by {
        reveal_strlit("# netbios = false");
        reveal_with_fuel(unbroken_upto, 18);
    }
    reveal_with_fuel(inactive_upto, 5);
}

proof fn unbroken_means(line: Seq<char>, n: nat)
    requires
        unbroken_upto(line, n),
    ensures
        forall|i: int| 0 <= i < n ==> line[i] != '\n',
    decreases n,
{
    if n > 0 {
        unbroken_means(line, (n - 1) as nat);
    }
}

/// Every line is blank or a comment.
pub open spec fn all_inactive(lines: Seq<Seq<char>>) -> bool {
    forall|i: int| 0 <= i < lines.len() ==> is_inactive(#[trigger] lines[i])
}

proof fn one_more_line(text: Seq<char>, line: Seq<char>)
    requires
        text.len() > 0 ==> text.last() == '\n',
        all_inactive(split(text, '\n')),
        is_inactive_line(line),
    ensures
        all_inactive(split(text + line + "\n"@, '\n')),
        (text + line + "\n"@).last() == '\n',
{
    unbroken_means(line, line.len());
    reveal_strlit("\n");
    let all = text + line + "\n"@;
    assert(all =~= (text + line).push('\n'));
    assert(all.drop_last() =~= text + line);
    let head = split(text + line, '\n');
    if text.len() == 0 {
        split_without_separator(line, '\n');
        assert(text + line =~= line);
    } else {
        let a = text.drop_last();
        assert(text =~= a.push('\n'));
        split_at_last_separator(a, line, '\n');
        let before = split(text, '\n');
        assert(head == split(a, '\n').push(line));
        assert(before == split(a, '\n').push(Seq::empty()));
        assert forall|i: int| 0 <= i < head.len() implies is_inactive(#[trigger] head[i]) by {
            if i < head.len() - 1 {
                assert(head[i] == before[i]);
            }
        }
    }
    let lines = split(all, '\n');
    assert(lines == head.push(Seq::empty()));
    assert forall|i: int| 0 <= i < lines.len() implies is_inactive(#[trigger] lines[i]) by {
        if i < head.len() {
            assert(lines[i] == head[i]);
        }
    }
}

proof fn inactive_lines(lines: Seq<&'static str>, n: nat)
    requires
        n <= lines.len(),
        inactive_upto(lines, n),
    ensures
        all_inactive(split(joined(lines.take(n as int)), '\n')),
        joined(lines.take(n as int)).len() > 0 ==> joined(lines.take(n as int)).last() == '\n',
    decreases n,
{
    let upto = lines.take(n as int);
    if n > 0 {
        inactive_lines(lines, (n - 1) as nat);
        assert(upto.drop_last() =~= lines.take(n - 1));
        one_more_line(joined(lines.take(n - 1)), lines[n - 1]@);
    }
}

/// Every line of a template is blank or a comment: nothing in it is active.
pub proof fn template_is_inactive(lang: Lang)
    ensures
        all_inactive(split(template(lang), '\n')),
{
    match lang {
        Lang::En => {
            en_14();
            inactive_lines(EN_LINES@, EN_LINES@.len());
            assert(EN_LINES@.take(EN_LINES@.len() as int) =~= EN_LINES@);
        },
        Lang::Zh => {
            zh_13();
            inactive_lines(ZH_LINES@, ZH_LINES@.len());
            assert(ZH_LINES@.take(ZH_LINES@.len() as int) =~= ZH_LINES@);
        },
    }
}

/// A reader of configurations to which blank lines and comments say nothing: a text
/// of such lines alone leaves every setting at its default.
pub open spec fn skips_inactive(read: spec_fn(Seq<char>) -> Option<ConfigView>) -> bool {
    forall|text: Seq<char>|
        all_inactive(split(text, '\n')) ==> #[trigger] read(text) == Some(empty_config())
}

/// A template is read as the default configuration, which is valid, by every reader
/// that skips blank lines and comments.
pub proof fn template_is_read_as_default(
    read: spec_fn(Seq<char>) -> Option<ConfigView>,
    lang: Lang,
)
    requires
        skips_inactive(read),
    ensures
        read(template(lang)) == Some(empty_config()),
        valid_config(empty_config()),
{
    template_is_inactive(lang);
}

} // verus!
