//! The texts of the user interface in both languages.

use vstd::prelude::*;

use crate::i18n::Lang;
use crate::text::same_text;

verus! {

/// The keys of the texts.
pub const KEYS: [&'static str; 69] = [
    "title",
    "status_running",
    "status_stopped",
    "service_starting",
    "service_giveup",
    "btn_start",
    "btn_stop",
    "btn_save",
    "btn_add",
    "btn_pick_running",
    "btn_advanced",
    "btn_reload",
    "list_games",
    "list_background",
    "list_process_name",
    "opt_group",
    "opt_suspend",
    "opt_low_priority",
    "opt_cpu",
    "opt_mem",
    "cpu_low",
    "cpu_med",
    "cpu_high",
    "lang",
    "pick_title",
    "pick_hint",
    "pick_ok",
    "pick_cancel",
    "add_prompt_title",
    "add_prompt_hint",
    "loading",
    "cfg_loaded",
    "cfg_load_failed",
    "cfg_invalid",
    "status_refreshed",
    "status_failed",
    "save_ok",
    "save_failed",
    "save_in_progress",
    "save_blocked",
    "save_requires_elevation",
    "save_relaunch_prompt",
    "unexpected_response",
    "added",
    "tray_start",
    "tray_stop",
    "tray_overlay",
    "tray_open",
    "tray_exit",
    "advanced_title",
    "field_name",
    "field_priority",
    "field_affinity",
    "field_qos",
    "field_suspend",
    "field_trim",
    "btn_apply",
    "adv_no_selection",
    "adv_applied",
    "adv_no_name",
    "adv_invalid_affinity",
    "adv_invalid_qos",
    "adv_reloading",
    "prio_idle",
    "prio_below_normal",
    "prio_normal",
    "prio_above_normal",
    "prio_high",
    "prio_realtime",
];

/// The Chinese texts, in the order of the keys.
pub const ZH: [&'static str; 69] = [
    "aetheris",
    "正在优化中",
    "未运行",
    "正在启动服务…",
    "无法启动服务 — 请手动(以管理员身份)运行 `aetheris service`",
    "启动服务",
    "停止服务",
    "保存",
    "添加",
    "从运行中的进程选择",
    "高级设置",
    "重载",
    "游戏(启动时进入优化模式)",
    "后台应用(游戏运行时优化)",
    "进程名",
    "优化方式(应用于全部勾选的后台应用)",
    "挂起",
    "降低优先级",
    "限制 CPU",
    "清理内存",
    "低",
    "中",
    "高",
    "语言",
    "选择运行中的进程",
    "勾选要添加的进程,然后点击确定",
    "确定",
    "取消",
    "添加进程",
    "输入进程名(支持 * 通配)",
    "正在从服务加载配置…",
    "已从服务加载配置",
    "加载配置失败",
    "配置无效",
    "状态已刷新",
    "状态刷新失败",
    "保存成功",
    "保存失败",
    "保存正在进行中",
    "配置尚未从服务加载,无法保存",
    "保存需要管理员权限",
    "保存需要管理员权限。\n\n以管理员身份重新启动将关闭本窗口,未保存的更改将丢失。\n\n是否以管理员身份重新启动 aetheris 并重试?",
    "意外的响应",
    "已添加",
    "启动服务",
    "停止服务",
    "切换悬浮窗",
    "打开界面",
    "退出",
    "高级设置",
    "名称",
    "优先级",
    "亲和性",
    "QoS",
    "挂起",
    "清理内存",
    "应用",
    "请先在后台应用列表中选择一行",
    "已应用到该行",
    "名称不能为空",
    "亲和性无效",
    "QoS 无效",
    "正在重新加载配置…",
    "空闲",
    "低于正常",
    "正常",
    "高于正常",
    "高",
    "实时",
];

/// The English texts, in the order of the keys.
pub const EN: [&'static str; 69] = [
    "aetheris",
    "Optimizing",
    "Not running",
    "Starting service…",
    "unable to start service — run `aetheris service` manually (elevated)",
    "Start service",
    "Stop service",
    "Save",
    "Add",
    "Pick from running",
    "Advanced",
    "Reload",
    "Games (enter optimization on launch)",
    "Background apps (optimized while a game runs)",
    "Process name",
    "Optimization (applies to all checked background apps)",
    "Suspend",
    "Lower priority",
    "Limit CPU",
    "Trim memory",
    "Low",
    "Medium",
    "High",
    "Language",
    "Pick running process",
    "Check the processes to add, then OK",
    "OK",
    "Cancel",
    "Add process",
    "Enter a process name (* wildcard supported)",
    "Loading config from service…",
    "Config loaded from service",
    "Config load failed",
    "Config invalid",
    "Status refreshed",
    "Status refresh failed",
    "Saved",
    "Save failed",
    "Save already in progress",
    "Config not loaded from service — cannot save",
    "Save requires administrator rights",
    "Save requires administrator rights.\n\nRelaunching as administrator will close this editor and any unsaved changes will be lost.\n\nRelaunch aetheris as administrator and try again?",
    "Unexpected response",
    "Added",
    "Start service",
    "Stop service",
    "Toggle overlay",
    "Open UI",
    "Exit",
    "Advanced settings",
    "Name",
    "Priority",
    "Affinity",
    "QoS",
    "Suspend",
    "Trim memory",
    "Apply",
    "Select a background-app row first",
    "Applied to the row",
    "Name must not be empty",
    "Invalid affinity",
    "Invalid QoS",
    "Reloading config…",
    "Idle",
    "Below normal",
    "Normal",
    "Above normal",
    "High",
    "Realtime",
];

/// The texts of a language, in the order of the keys.
pub open spec fn table(lang: Lang) -> Seq<&'static str> {
    match lang {
        Lang::Zh => ZH@,
        Lang::En => EN@,
    }
}

/// The first index from `from` on at which a key stands.
pub open spec fn key_from(key: Seq<char>, from: int) -> Option<int>
    decreases 69 - from,
{
    if from < 0 || from >= 69 {
        None
    } else if KEYS@[from]@ == key {
        Some(from)
    } else {
        key_from(key, from + 1)
    }
}

/// The text of a key in a language; empty for what is no key.
pub open spec fn text_for(lang: Lang, key: Seq<char>) -> Seq<char> {
    match key_from(key, 0) {
        Some(i) => table(lang)[i]@,
        None => Seq::empty(),
    }
}

/// The text of a key in a language.
pub fn tr(lang: Lang, key: &str) -> (r: &'static str)
    ensures
        r@ == text_for(lang, key@),
{
    let mut i: usize = 0;
    while i < 69
        invariant
            i <= 69,
            key_from(key@, 0) == key_from(key@, i as int),
        decreases 69 - i,
    {
        if same_text(KEYS[i], key) {
            return match lang {
                Lang::Zh => ZH[i],
                Lang::En => EN[i],
            };
        }
        i = i + 1;
    }
    proof {
        reveal_strlit("");
        assert(""@ =~= Seq::<char>::empty());
    }
    ""
}

/// Every key.
pub fn keys() -> (r: Vec<&'static str>)
    ensures
        r@ == KEYS@,
{
    let mut r: Vec<&'static str> = Vec::new();
    let mut i: usize = 0;
    while i < 69
        invariant
            i <= 69,
            r@ == KEYS@.take(i as int),
        decreases 69 - i,
    {
        r.push(KEYS[i]);
        i = i + 1;
        assert(r@ =~= KEYS@.take(i as int));
    }
    assert(r@ =~= KEYS@);
    r
}

} // verus!
