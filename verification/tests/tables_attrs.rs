use std::collections::HashMap;

use bpsr_tools::attrs::{find_text, replace_text, resolve_attr_template, strip_markup, template_is_ok, trim_text};
use bpsr_tools::tables::{gear_slot_name, mod_quality_label, DataTables, ModEntry};

fn empty_tables() -> DataTables {
    DataTables {
        mods: HashMap::new(),
        mod_effects: Vec::new(),
        mod_link_effects: HashMap::new(),
        skills: HashMap::new(),
        skill_overrides: HashMap::new(),
        monsters: HashMap::new(),
        dummies: HashMap::new(),
        scenes: HashMap::new(),
        equips: HashMap::new(),
        items: HashMap::new(),
        dungeons: HashMap::new(),
        equip_attr_libs: Vec::new(),
        equip_attr_school_libs: Vec::new(),
        equip_break_throughs: Vec::new(),
        fight_attrs: Vec::new(),
        attr_descriptions: HashMap::new(),
        buffs: HashMap::new(),
    }
}

fn module(id: i32, name: &str, mod_type: i32, init: i32) -> ModEntry {
    ModEntry {
        id,
        name: name.to_string(),
        mod_type,
        effect_lib_ids: Vec::new(),
        is_can_link: false,
        similar_id: 0,
        initialization_id: init,
    }
}

#[test]
fn module_display_names() {
    let mut t = empty_tables();
    t.mods.insert(5501, module(5501, "Strength", 1, 104));
    t.mods.insert(5502, module(5502, "Agile", 3, 102));
    t.mods.insert(5503, module(5503, "", 2, 101));
    t.mods.insert(5504, module(5504, "Odd", 7, 104));
    assert_eq!(t.mod_display_name(5501).as_deref(), Some("EXT - Excellent Attack Module"));
    assert_eq!(t.mod_display_name(5504).as_deref(), Some("EXT - Excellent Unknown Module"));
    assert_eq!(t.mod_display_name(5502).as_deref(), Some("Agile"));
    assert_eq!(t.mod_display_name(5503), None);
    assert_eq!(t.mod_display_name(1), None);
    assert_eq!(t.mod_quality_tier(5501), Some(3));
    assert_eq!(t.mod_quality_tier(5503), Some(0));
    assert_eq!(t.mod_type(5502), Some(3));
    assert_eq!(t.mod_name(5503), None);
}

#[test]
fn module_icons() {
    let t = empty_tables();
    assert_eq!(t.mod_type_icon_name(1, 0), None);
    assert_eq!(t.mod_type_icon_name(1, 1).as_deref(), Some("item_mod_device_attack2"));
    assert_eq!(t.mod_type_icon_name(2, 2).as_deref(), Some("item_mod_device_3"));
    assert_eq!(t.mod_type_icon_name(3, 3).as_deref(), Some("item_mod_device_protect4"));
    assert_eq!(t.mod_type_icon_name(3, 9).as_deref(), Some("item_mod_device_protect10"));
    assert_eq!(t.mod_type_icon_name(4, 1), None);
}

#[test]
fn slot_and_quality_labels() {
    assert_eq!(gear_slot_name(200), "Weapon");
    assert_eq!(gear_slot_name(208), "Bracelet (L)");
    assert_eq!(gear_slot_name(-3), "Slot -3");
    assert_eq!(gear_slot_name(211), "Slot 211");
    assert_eq!(mod_quality_label(0), "Basic");
    assert_eq!(mod_quality_label(3), "EXT");
    assert_eq!(mod_quality_label(9), "Unknown");
}

#[test]
fn attribute_templates() {
    let desc = "Attack +{*Decision.unmarknormal(1)*}~{*Decision.unmarknormal(2)*}<br><style=\"x\">done</style>";
    assert!(template_is_ok(desc));
    assert_eq!(resolve_attr_template(desc, 10, -20), "Attack +10~-20 done");
    assert_eq!(resolve_attr_template("no placeholders", 1, 2), "no placeholders");
    assert_eq!(resolve_attr_template("x{*Decision.unmarknormal(3)*}y", 1, 2), "xy");
    assert_eq!(resolve_attr_template("x{*Decision.open", 1, 2), "x{*Decision.open");
}

#[test]
fn text_helpers() {
    assert_eq!(strip_markup("<b>hi</b> there<"), "hi there");
    assert_eq!(replace_text("a<br>b<br>", "<br>", " "), "a b ");
    assert_eq!(find_text("hello", "ll"), Some(2));
    assert_eq!(find_text("hello", "z"), None);
    assert_eq!(trim_text("  x y \n"), "x y");
}
