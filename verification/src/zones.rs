//! Display names of overworld zones and instanced scenes by map id.

use vstd::prelude::*;

verus! {

/// The display name of a map id, where the table knows it.
pub open spec fn zone_label(id: u32) -> Option<Seq<char>> {
    match id {
        7 => Some("Asteria Plains"@),
        8 => Some("Asterleeds"@),
        9 => Some("Bahamar Highlands"@),
        10 => Some("Valley"@),
        11 => Some("Starland"@),
        71 => Some("Duskdye Woods"@),
        72 => Some("Everfall Forest"@),
        73 => Some("Windhowl Canyon"@),
        74 => Some("Underground District"@),
        75 => Some("Skimmer's Lair"@),
        76 => Some("Land of Crimson Illusion"@),
        91 => Some("Sunken Corridor"@),
        92 => Some("Gloomy Depths"@),
        93 => Some("Moonshadow Wilds"@),
        94 => Some("Stray Starway"@),
        95 => Some("Sunset Wilds"@),
        1001 => Some("Tina's Mindrealm"@),
        1002 => Some("Tina's Mindrealm"@),
        1011 => Some("Unstable - Tina's Mindrealm"@),
        1021 => Some("Unstable - Tina's Mindrealm"@),
        1031 => Some("Chaotic - Tina's Mindrealm"@),
        1032 => Some("Chaotic - Tina's Mindrealm"@),
        1033 => Some("Chaotic - Tina's Mindrealm"@),
        1101 => Some("Towering Ruin"@),
        1102 => Some("Towering Ruin"@),
        1111 => Some("Unstable - Towering Ruin"@),
        1112 => Some("Unstable - Towering Ruin"@),
        1121 => Some("Chaotic - Towering Ruin"@),
        1122 => Some("Chaotic - Towering Ruin"@),
        1123 => Some("Chaotic - Towering Ruin"@),
        1201 => Some("Dragon Claw Valley"@),
        1202 => Some("Dragon Claw Valley"@),
        1211 => Some("Unstable - Dragon Claw Valley"@),
        1212 => Some("Unstable - Dragon Claw Valley"@),
        1221 => Some("Chaotic - Dragon Claw Valley"@),
        1222 => Some("Chaotic - Dragon Claw Valley"@),
        1223 => Some("Chaotic - Dragon Claw Valley"@),
        1301 => Some("Dark Mist Fortress"@),
        1302 => Some("Dark Mist Fortress"@),
        1311 => Some("Unstable - Dark Mist Fortress"@),
        1321 => Some("Unstable - Dark Mist Fortress"@),
        1331 => Some("Chaotic - Dark Mist Fortress"@),
        1332 => Some("Chaotic - Dark Mist Fortress"@),
        1333 => Some("Chaotic - Dark Mist Fortress"@),
        1401 => Some("Illusory Moonveil Wilds"@),
        1402 => Some("Illusory Moonveil Wilds"@),
        1403 => Some("Illusory Moonveil Wilds"@),
        1411 => Some("Unstable - Illusory Moonveil Wilds"@),
        1412 => Some("Unstable - Illusory Moonveil Wilds"@),
        1421 => Some("Chaotic - Illusory Moonveil Wilds"@),
        1422 => Some("Chaotic - Illusory Moonveil Wilds"@),
        1423 => Some("Chaotic - Illusory Moonveil Wilds"@),
        1501 => Some("Rock Serpent Lair"@),
        1502 => Some("Rock Serpent Lair"@),
        1511 => Some("Unstable - Rock Serpent Lair"@),
        1521 => Some("Unstable - Rock Serpent Lair"@),
        1531 => Some("Chaotic - Rock Serpent Lair"@),
        1532 => Some("Chaotic - Rock Serpent Lair"@),
        1533 => Some("Chaotic - Rock Serpent Lair"@),
        5002 => Some("Sea of Origin"@),
        5033 => Some("Tower Ruins"@),
        5200 => Some("Lamond's Office"@),
        5206 => Some("Asterleeds"@),
        5211 => Some("Lamond's Office"@),
        5220 => Some("Sea Cruise"@),
        5401 => Some("Kanamia Forest"@),
        5403 => Some("Kanamia Brave Trial"@),
        5501 => Some("Dragon Claw Valley"@),
        5602 => Some("Fafala's Home"@),
        5603 => Some("Fafala's Home"@),
        5811 => Some("Smelting Furnace Pipes"@),
        5812 => Some("Frostjade Staff"@),
        6005 => Some("Unstable - Goblin Lair"@),
        6006 => Some("Unstable - Goblin Lair"@),
        6007 => Some("Chaotic - Goblin Lair"@),
        6008 => Some("Chaotic - Goblin Lair"@),
        6009 => Some("Chaotic - Goblin Lair"@),
        6011 => Some("Unstable - Kanamia Trial"@),
        6012 => Some("Unstable - Kanamia Trial"@),
        6021 => Some("Chaotic - Kanamia Trial"@),
        6022 => Some("Chaotic - Kanamia Trial"@),
        6023 => Some("Chaotic - Kanamia Trial"@),
        6031 => Some("Unstable - Kanamia Trial"@),
        6032 => Some("Unstable - Kanamia Trial"@),
        6040 => Some("Verdant Embrace of Soundless City"@),
        6041 => Some("Unstable - Soundless City"@),
        6042 => Some("Unstable - Soundless City"@),
        6043 => Some("Chaotic - Soundless City"@),
        6044 => Some("Chaotic - Soundless City"@),
        6045 => Some("Chaotic - Soundless City"@),
        6111 => Some("Unstable - Wraith Shrine"@),
        6112 => Some("Unstable - Wraith Shrine"@),
        6121 => Some("Chaotic - Wraith Shrine"@),
        6122 => Some("Chaotic - Wraith Shrine"@),
        6123 => Some("Chaotic - Wraith Shrine"@),
        6211 => Some("Unstable - Depths of Decay"@),
        6212 => Some("Unstable - Depths of Decay"@),
        6221 => Some("Chaotic - Depths of Decay"@),
        6222 => Some("Chaotic - Depths of Decay"@),
        6223 => Some("Chaotic - Depths of Decay"@),
        6311 => Some("Unstable - Devourer Cage"@),
        6321 => Some("Unstable - Devourer Cage"@),
        6331 => Some("Chaotic - Devourer Cage"@),
        6332 => Some("Chaotic - Devourer Cage"@),
        6333 => Some("Chaotic - Devourer Cage"@),
        6411 => Some("Unstable - Soundless City"@),
        6412 => Some("Unstable - Soundless City"@),
        6421 => Some("Chaotic - Soundless City"@),
        6422 => Some("Chaotic - Soundless City"@),
        6423 => Some("Chaotic - Soundless City"@),
        7001 => Some("Parkour"@),
        7002 => Some("Parkour"@),
        7003 => Some("Wasteland Race"@),
        7004 => Some("City Rally"@),
        7050 => Some("Goblin Rampage"@),
        7051 => Some("Goblin Rampage"@),
        7052 => Some("Goblin Rampage"@),
        7053 => Some("Goblin Rampage"@),
        7054 => Some("Goblin Rampage"@),
        7055 => Some("Defeat the Goblin Mage"@),
        7056 => Some("Defeat the Goblin Mage"@),
        7057 => Some("Defeat the Goblin Mage"@),
        7058 => Some("Defeat the Goblin Mage"@),
        7060 => Some("Canyon Battle"@),
        7061 => Some("Canyon Battle"@),
        7065 => Some("Urgent Delivery"@),
        7070 => Some("Light Bridge"@),
        7071 => Some("Light Bridge"@),
        7072 => Some("Light Bridge"@),
        7073 => Some("Light Bridge"@),
        7075 => Some("Demi-Human Q&A"@),
        7076 => Some("Demi-Human Q&A"@),
        7077 => Some("Demi-Human Q&A"@),
        7080 => Some("Wind Turbulence"@),
        7085 => Some("Boars Run"@),
        7090 => Some("Suppress the Eruption"@),
        7095 => Some("Spider Mine"@),
        7101 => Some("Aerial Patrol"@),
        7102 => Some("Aerial Patrol"@),
        7103 => Some("Aerial Patrol"@),
        7150 => Some("World Dominator"@),
        7151 => Some("World Dominator"@),
        8001 => Some("Village Defense Battle"@),
        8002 => Some("Golem Arena"@),
        8005 => Some("Urgent Delivery"@),
        8006 => Some("Urgent Delivery"@),
        8020 => Some("Demi-Human Duel"@),
        8021 => Some("Demi-Human Duel"@),
        9000 => Some("Spider Mine"@),
        9001 => Some("Balloon Capture"@),
        9002 => Some("Defeat the Year Demon"@),
        9200 => Some("Dragon Shackles: Adept's Trial"@),
        9201 => Some("Loom of Dreams\u{200b}"@),
        9202 => Some("Slumberdream Valley"@),
        9203 => Some("Slumberdream Valley"@),
        9204 => Some("Slumberdream Valley"@),
        10001 => Some("Square Practice Field 1"@),
        10002 => Some("Square Practice Field 2"@),
        11001 => Some("Wondrous Tag"@),
        12000 => Some("Guild Center"@),
        12011 => Some("Guild Hunt - Hard"@),
        12012 => Some("Guild Hunt - Normal"@),
        12013 => Some("Guild Hunt - Easy"@),
        12014 => Some("Guild Hunt - Normal"@),
        12015 => Some("Guild Hunt - Hard"@),
        12016 => Some("Devourer Cage Sharing"@),
        12017 => Some("Devourer Cage Sharing"@),
        12018 => Some("Guild Hunt - Normal"@),
        12019 => Some("Guild Hunt - Hard"@),
        12030 => Some("Ee-chan's Story"@),
        12040 => Some("Guild Party"@),
        12050 => Some("Giant Golem Crusade"@),
        12051 => Some("Giant Golem Crusade"@),
        12100 => Some("Echoing Dungeon"@),
        13001 => Some("Clash! Floating Island - Dragon Shackles"@),
        13002 => Some("Brutal! Floating Island - Dragon Shackles"@),
        13003 => Some("Purge! Floating Island - Dragon Shackles"@),
        13011 => Some("Clash! Dreambloom Ruins"@),
        13012 => Some("Brutal! Dreambloom Ruins"@),
        13013 => Some("Purge! Dreambloom Ruins"@),
        20101 => Some("Guardian 1"@),
        20102 => Some("Guardian 10"@),
        20201 => Some("Guardian 2"@),
        20202 => Some("Guardian 22"@),
        20301 => Some("Guardian 4"@),
        20302 => Some("Guardian 13"@),
        20303 => Some("Guardian 25"@),
        20401 => Some("Guardian 5"@),
        20402 => Some("Guardian 16"@),
        20501 => Some("Guardian 7"@),
        20502 => Some("Guardian 19"@),
        20701 => Some("Guardian 14"@),
        20702 => Some("Guardian 20"@),
        20801 => Some("Guardian 8"@),
        20802 => Some("Guardian 17"@),
        20803 => Some("Guardian 26"@),
        21201 => Some("Guardian 23"@),
        21202 => Some("Guardian 29"@),
        21301 => Some("Guardian 6"@),
        21302 => Some("Guardian 12"@),
        21303 => Some("Guardian 18"@),
        21304 => Some("Guardian 24"@),
        21305 => Some("Guardian 30"@),
        21306 => Some("Guardian 3"@),
        21307 => Some("Guardian 9"@),
        21308 => Some("Guardian 15"@),
        21309 => Some("Guardian 21"@),
        21310 => Some("Guardian 27"@),
        21401 => Some("Guardian 11"@),
        21402 => Some("Guardian 28"@),
        22101 => Some("Attack 17"@),
        22201 => Some("Attack 10"@),
        22202 => Some("Attack 23"@),
        22301 => Some("Attack 11"@),
        22401 => Some("Attack 13"@),
        22402 => Some("Attack 19"@),
        22501 => Some("Attack 6"@),
        22502 => Some("Attack 12"@),
        22503 => Some("Attack 18"@),
        22504 => Some("Attack 24"@),
        22505 => Some("Attack 30"@),
        22601 => Some("Attack 7"@),
        22602 => Some("Attack 14"@),
        22701 => Some("Attack 8"@),
        22702 => Some("Attack 26"@),
        23101 => Some("Attack 3"@),
        23102 => Some("Attack 9"@),
        23103 => Some("Attack 15"@),
        23104 => Some("Attack 21"@),
        23105 => Some("Attack 27"@),
        23201 => Some("Attack 4"@),
        23301 => Some("Attack 1"@),
        23302 => Some("Attack 20"@),
        23401 => Some("Attack 2"@),
        23501 => Some("Attack 5"@),
        23502 => Some("Attack 25"@),
        23601 => Some("Attack 16"@),
        23602 => Some("Attack 28"@),
        23701 => Some("Attack 22"@),
        23702 => Some("Attack 29"@),
        24101 => Some("Support 3"@),
        24102 => Some("Support 6"@),
        24103 => Some("Support 9"@),
        24104 => Some("Support 12"@),
        24105 => Some("Support 15"@),
        24106 => Some("Support 18"@),
        24107 => Some("Support 21"@),
        24108 => Some("Support 24"@),
        24109 => Some("Support 27"@),
        24110 => Some("Support 30"@),
        24201 => Some("Support 2"@),
        24202 => Some("Support 10"@),
        24203 => Some("Support 17"@),
        24204 => Some("Support 25"@),
        24301 => Some("Support 5"@),
        24302 => Some("Support 14"@),
        24303 => Some("Support 20"@),
        24304 => Some("Support 29"@),
        24401 => Some("Support 4"@),
        24402 => Some("Support 11"@),
        24403 => Some("Support 19"@),
        24404 => Some("Support 23"@),
        24501 => Some("Support 7"@),
        24502 => Some("Support 16"@),
        24503 => Some("Support 22"@),
        24504 => Some("Support 28"@),
        24601 => Some("Support 1"@),
        24602 => Some("Support 8"@),
        24603 => Some("Support 13"@),
        24604 => Some("Support 26"@),
        30001 => Some("Homestead Courtyard"@),
        30101 => Some("Stimen Vaults Floor 1"@),
        30102 => Some("Stimen Vaults Floor 2"@),
        30103 => Some("Stimen Vaults Floor 3"@),
        30104 => Some("Stimen Vaults Floor 4"@),
        30105 => Some("Stimen Vaults Floor 5"@),
        30106 => Some("Stimen Vaults Floor 6"@),
        30107 => Some("Stimen Vaults Floor 7"@),
        30108 => Some("Stimen Vaults Floor 8"@),
        30109 => Some("Stimen Vaults Floor 9"@),
        30110 => Some("Stimen Vaults Floor 10"@),
        30111 => Some("Stimen Vaults Floor 11"@),
        30112 => Some("Stimen Vaults Floor 12"@),
        30113 => Some("Stimen Vaults Floor 13"@),
        30114 => Some("Stimen Vaults Floor 14"@),
        30115 => Some("Stimen Vaults Floor 15"@),
        30116 => Some("Stimen Vaults Floor 16"@),
        30117 => Some("Stimen Vaults Floor 17"@),
        30118 => Some("Stimen Vaults Floor 18"@),
        30119 => Some("Stimen Vaults Floor 19"@),
        30120 => Some("Stimen Vaults Floor 20"@),
        30121 => Some("Stimen Vaults Floor 21"@),
        30122 => Some("Stimen Vaults Floor 22"@),
        30123 => Some("Stimen Vaults Floor 23"@),
        30124 => Some("Stimen Vaults Floor 24"@),
        30125 => Some("Stimen Vaults Floor 25"@),
        30126 => Some("Stimen Vaults Floor 26"@),
        30127 => Some("Stimen Vaults Floor 27"@),
        30128 => Some("Stimen Vaults Floor 28"@),
        30129 => Some("Stimen Vaults Floor 29"@),
        30130 => Some("Stimen Vaults Floor 30"@),
        30131 => Some("Stimen Vaults Floor 31"@),
        30132 => Some("Stimen Vaults Floor 32"@),
        30133 => Some("Stimen Vaults Floor 33"@),
        30134 => Some("Stimen Vaults Floor 34"@),
        30135 => Some("Stimen Vaults Floor 35"@),
        30136 => Some("Stimen Vaults Floor 36"@),
        30137 => Some("Stimen Vaults Floor 37"@),
        30138 => Some("Stimen Vaults Floor 38"@),
        30139 => Some("Stimen Vaults Floor 39"@),
        30140 => Some("Stimen Vaults Floor 40"@),
        30141 => Some("Stimen Vaults Floor 41"@),
        30142 => Some("Stimen Vaults Floor 42"@),
        30143 => Some("Stimen Vaults Floor 43"@),
        30144 => Some("Stimen Vaults Floor 44"@),
        30145 => Some("Stimen Vaults Floor 45"@),
        30146 => Some("Stimen Vaults Floor 46"@),
        30147 => Some("Stimen Vaults Floor 47"@),
        30148 => Some("Stimen Vaults Floor 48"@),
        30149 => Some("Stimen Vaults Floor 49"@),
        30150 => Some("Stimen Vaults Floor 50"@),
        30151 => Some("Stimen Vaults Floor 51"@),
        30152 => Some("Stimen Vaults Floor 52"@),
        30153 => Some("Stimen Vaults Floor 53"@),
        30154 => Some("Stimen Vaults Floor 54"@),
        30155 => Some("Stimen Vaults Floor 55"@),
        30156 => Some("Stimen Vaults Floor 56"@),
        30157 => Some("Stimen Vaults Floor 57"@),
        30158 => Some("Stimen Vaults Floor 58"@),
        30159 => Some("Stimen Vaults Floor 59"@),
        30160 => Some("Stimen Vaults Floor 60"@),
        30161 => Some("Stimen Vaults Floor 61"@),
        30162 => Some("Stimen Vaults Floor 62"@),
        30163 => Some("Stimen Vaults Floor 63"@),
        30164 => Some("Stimen Vaults Floor 64"@),
        30165 => Some("Stimen Vaults Floor 65"@),
        30166 => Some("Stimen Vaults Floor 66"@),
        30167 => Some("Stimen Vaults Floor 67"@),
        30168 => Some("Stimen Vaults Floor 68"@),
        30169 => Some("Stimen Vaults Floor 69"@),
        30170 => Some("Stimen Vaults Floor 70"@),
        30171 => Some("Stimen Vaults Floor 71"@),
        30172 => Some("Stimen Vaults Floor 72"@),
        30173 => Some("Stimen Vaults Floor 73"@),
        30174 => Some("Stimen Vaults Floor 74"@),
        30175 => Some("Stimen Vaults Floor 75"@),
        30200 => Some("Stimen Vaults Floor 75"@),
        31101 => Some("Stimen Vaults Floor 1"@),
        31102 => Some("Stimen Vaults Floor 2"@),
        31103 => Some("Stimen Vaults Floor 3"@),
        31104 => Some("Stimen Vaults Floor 4"@),
        31105 => Some("Stimen Vaults Floor 5"@),
        31106 => Some("Stimen Vaults Floor 6"@),
        31107 => Some("Stimen Vaults Floor 7"@),
        31108 => Some("Stimen Vaults Floor 8"@),
        31109 => Some("Stimen Vaults Floor 9"@),
        31110 => Some("Stimen Vaults Floor 10"@),
        31111 => Some("Stimen Vaults Floor 11"@),
        31112 => Some("Stimen Vaults Floor 12"@),
        31113 => Some("Stimen Vaults Floor 13"@),
        31114 => Some("Stimen Vaults Floor 14"@),
        31115 => Some("Stimen Vaults Floor 15"@),
        31116 => Some("Stimen Vaults Floor 16"@),
        31117 => Some("Stimen Vaults Floor 17"@),
        31118 => Some("Stimen Vaults Floor 18"@),
        31119 => Some("Stimen Vaults Floor 19"@),
        31120 => Some("Stimen Vaults Floor 20"@),
        31121 => Some("Stimen Vaults Floor 21"@),
        31122 => Some("Stimen Vaults Floor 22"@),
        31123 => Some("Stimen Vaults Floor 23"@),
        31124 => Some("Stimen Vaults Floor 24"@),
        31125 => Some("Stimen Vaults Floor 25"@),
        31126 => Some("Stimen Vaults Floor 26"@),
        31127 => Some("Stimen Vaults Floor 27"@),
        31128 => Some("Stimen Vaults Floor 28"@),
        31129 => Some("Stimen Vaults Floor 29"@),
        31130 => Some("Stimen Vaults Floor 30"@),
        31131 => Some("Stimen Vaults Floor 31"@),
        31132 => Some("Stimen Vaults Floor 32"@),
        31133 => Some("Stimen Vaults Floor 33"@),
        31134 => Some("Stimen Vaults Floor 34"@),
        31135 => Some("Stimen Vaults Floor 35"@),
        31136 => Some("Stimen Vaults Floor 36"@),
        31137 => Some("Stimen Vaults Floor 37"@),
        31138 => Some("Stimen Vaults Floor 38"@),
        31139 => Some("Stimen Vaults Floor 39"@),
        31140 => Some("Stimen Vaults Floor 40"@),
        31141 => Some("Stimen Vaults Floor 41"@),
        31142 => Some("Stimen Vaults Floor 42"@),
        31143 => Some("Stimen Vaults Floor 43"@),
        31144 => Some("Stimen Vaults Floor 44"@),
        31145 => Some("Stimen Vaults Floor 45"@),
        31146 => Some("Stimen Vaults Floor 46"@),
        31147 => Some("Stimen Vaults Floor 47"@),
        31148 => Some("Stimen Vaults Floor 48"@),
        31149 => Some("Stimen Vaults Floor 49"@),
        31150 => Some("Stimen Vaults Floor 50"@),
        31151 => Some("Stimen Vaults Floor 51"@),
        31152 => Some("Stimen Vaults Floor 52"@),
        31153 => Some("Stimen Vaults Floor 53"@),
        31154 => Some("Stimen Vaults Floor 54"@),
        31155 => Some("Stimen Vaults Floor 55"@),
        31156 => Some("Stimen Vaults Floor 56"@),
        31157 => Some("Stimen Vaults Floor 57"@),
        31158 => Some("Stimen Vaults Floor 58"@),
        31159 => Some("Stimen Vaults Floor 59"@),
        31160 => Some("Stimen Vaults Floor 60"@),
        31161 => Some("Stimen Vaults Floor 61"@),
        31162 => Some("Stimen Vaults Floor 62"@),
        31163 => Some("Stimen Vaults Floor 63"@),
        31164 => Some("Stimen Vaults Floor 64"@),
        31165 => Some("Stimen Vaults Floor 65"@),
        31166 => Some("Stimen Vaults Floor 66"@),
        31167 => Some("Stimen Vaults Floor 67"@),
        31168 => Some("Stimen Vaults Floor 68"@),
        31169 => Some("Stimen Vaults Floor 69"@),
        31170 => Some("Stimen Vaults Floor 70"@),
        31171 => Some("Stimen Vaults Floor 71"@),
        31172 => Some("Stimen Vaults Floor 72"@),
        31173 => Some("Stimen Vaults Floor 73"@),
        31174 => Some("Stimen Vaults Floor 74"@),
        31175 => Some("Stimen Vaults Floor 75"@),
        40001 => Some("Homestead House"@),
        171001 => Some("Isolated Island"@),
        _ => None,
    }
}

/// Looks up the display name of a map id in the built-in zone table.
pub fn zone_name(id: u32) -> (r: Option<&'static str>)
    ensures
        match zone_label(id) {
            Some(name) => r matches Some(s) && s@ == name,
            None => r is None,
        },
{
    match id {
        7 => Some("Asteria Plains"),
        8 => Some("Asterleeds"),
        9 => Some("Bahamar Highlands"),
        10 => Some("Valley"),
        11 => Some("Starland"),
        71 => Some("Duskdye Woods"),
        72 => Some("Everfall Forest"),
        73 => Some("Windhowl Canyon"),
        74 => Some("Underground District"),
        75 => Some("Skimmer's Lair"),
        76 => Some("Land of Crimson Illusion"),
        91 => Some("Sunken Corridor"),
        92 => Some("Gloomy Depths"),
        93 => Some("Moonshadow Wilds"),
        94 => Some("Stray Starway"),
        95 => Some("Sunset Wilds"),
        1001 => Some("Tina's Mindrealm"),
        1002 => Some("Tina's Mindrealm"),
        1011 => Some("Unstable - Tina's Mindrealm"),
        1021 => Some("Unstable - Tina's Mindrealm"),
        1031 => Some("Chaotic - Tina's Mindrealm"),
        1032 => Some("Chaotic - Tina's Mindrealm"),
        1033 => Some("Chaotic - Tina's Mindrealm"),
        1101 => Some("Towering Ruin"),
        1102 => Some("Towering Ruin"),
        1111 => Some("Unstable - Towering Ruin"),
        1112 => Some("Unstable - Towering Ruin"),
        1121 => Some("Chaotic - Towering Ruin"),
        1122 => Some("Chaotic - Towering Ruin"),
        1123 => Some("Chaotic - Towering Ruin"),
        1201 => Some("Dragon Claw Valley"),
        1202 => Some("Dragon Claw Valley"),
        1211 => Some("Unstable - Dragon Claw Valley"),
        1212 => Some("Unstable - Dragon Claw Valley"),
        1221 => Some("Chaotic - Dragon Claw Valley"),
        1222 => Some("Chaotic - Dragon Claw Valley"),
        1223 => Some("Chaotic - Dragon Claw Valley"),
        1301 => Some("Dark Mist Fortress"),
        1302 => Some("Dark Mist Fortress"),
        1311 => Some("Unstable - Dark Mist Fortress"),
        1321 => Some("Unstable - Dark Mist Fortress"),
        1331 => Some("Chaotic - Dark Mist Fortress"),
        1332 => Some("Chaotic - Dark Mist Fortress"),
        1333 => Some("Chaotic - Dark Mist Fortress"),
        1401 => Some("Illusory Moonveil Wilds"),
        1402 => Some("Illusory Moonveil Wilds"),
        1403 => Some("Illusory Moonveil Wilds"),
        1411 => Some("Unstable - Illusory Moonveil Wilds"),
        1412 => Some("Unstable - Illusory Moonveil Wilds"),
        1421 => Some("Chaotic - Illusory Moonveil Wilds"),
        1422 => Some("Chaotic - Illusory Moonveil Wilds"),
        1423 => Some("Chaotic - Illusory Moonveil Wilds"),
        1501 => Some("Rock Serpent Lair"),
        1502 => Some("Rock Serpent Lair"),
        1511 => Some("Unstable - Rock Serpent Lair"),
        1521 => Some("Unstable - Rock Serpent Lair"),
        1531 => Some("Chaotic - Rock Serpent Lair"),
        1532 => Some("Chaotic - Rock Serpent Lair"),
        1533 => Some("Chaotic - Rock Serpent Lair"),
        5002 => Some("Sea of Origin"),
        5033 => Some("Tower Ruins"),
        5200 => Some("Lamond's Office"),
        5206 => Some("Asterleeds"),
        5211 => Some("Lamond's Office"),
        5220 => Some("Sea Cruise"),
        5401 => Some("Kanamia Forest"),
        5403 => Some("Kanamia Brave Trial"),
        5501 => Some("Dragon Claw Valley"),
        5602 => Some("Fafala's Home"),
        5603 => Some("Fafala's Home"),
        5811 => Some("Smelting Furnace Pipes"),
        5812 => Some("Frostjade Staff"),
        6005 => Some("Unstable - Goblin Lair"),
        6006 => Some("Unstable - Goblin Lair"),
        6007 => Some("Chaotic - Goblin Lair"),
        6008 => Some("Chaotic - Goblin Lair"),
        6009 => Some("Chaotic - Goblin Lair"),
        6011 => Some("Unstable - Kanamia Trial"),
        6012 => Some("Unstable - Kanamia Trial"),
        6021 => Some("Chaotic - Kanamia Trial"),
        6022 => Some("Chaotic - Kanamia Trial"),
        6023 => Some("Chaotic - Kanamia Trial"),
        6031 => Some("Unstable - Kanamia Trial"),
        6032 => Some("Unstable - Kanamia Trial"),
        6040 => Some("Verdant Embrace of Soundless City"),
        6041 => Some("Unstable - Soundless City"),
        6042 => Some("Unstable - Soundless City"),
        6043 => Some("Chaotic - Soundless City"),
        6044 => Some("Chaotic - Soundless City"),
        6045 => Some("Chaotic - Soundless City"),
        6111 => Some("Unstable - Wraith Shrine"),
        6112 => Some("Unstable - Wraith Shrine"),
        6121 => Some("Chaotic - Wraith Shrine"),
        6122 => Some("Chaotic - Wraith Shrine"),
        6123 => Some("Chaotic - Wraith Shrine"),
        6211 => Some("Unstable - Depths of Decay"),
        6212 => Some("Unstable - Depths of Decay"),
        6221 => Some("Chaotic - Depths of Decay"),
        6222 => Some("Chaotic - Depths of Decay"),
        6223 => Some("Chaotic - Depths of Decay"),
        6311 => Some("Unstable - Devourer Cage"),
        6321 => Some("Unstable - Devourer Cage"),
        6331 => Some("Chaotic - Devourer Cage"),
        6332 => Some("Chaotic - Devourer Cage"),
        6333 => Some("Chaotic - Devourer Cage"),
        6411 => Some("Unstable - Soundless City"),
        6412 => Some("Unstable - Soundless City"),
        6421 => Some("Chaotic - Soundless City"),
        6422 => Some("Chaotic - Soundless City"),
        6423 => Some("Chaotic - Soundless City"),
        7001 => Some("Parkour"),
        7002 => Some("Parkour"),
        7003 => Some("Wasteland Race"),
        7004 => Some("City Rally"),
        7050 => Some("Goblin Rampage"),
        7051 => Some("Goblin Rampage"),
        7052 => Some("Goblin Rampage"),
        7053 => Some("Goblin Rampage"),
        7054 => Some("Goblin Rampage"),
        7055 => Some("Defeat the Goblin Mage"),
        7056 => Some("Defeat the Goblin Mage"),
        7057 => Some("Defeat the Goblin Mage"),
        7058 => Some("Defeat the Goblin Mage"),
        7060 => Some("Canyon Battle"),
        7061 => Some("Canyon Battle"),
        7065 => Some("Urgent Delivery"),
        7070 => Some("Light Bridge"),
        7071 => Some("Light Bridge"),
        7072 => Some("Light Bridge"),
        7073 => Some("Light Bridge"),
        7075 => Some("Demi-Human Q&A"),
        7076 => Some("Demi-Human Q&A"),
        7077 => Some("Demi-Human Q&A"),
        7080 => Some("Wind Turbulence"),
        7085 => Some("Boars Run"),
        7090 => Some("Suppress the Eruption"),
        7095 => Some("Spider Mine"),
        7101 => Some("Aerial Patrol"),
        7102 => Some("Aerial Patrol"),
        7103 => Some("Aerial Patrol"),
        7150 => Some("World Dominator"),
        7151 => Some("World Dominator"),
        8001 => Some("Village Defense Battle"),
        8002 => Some("Golem Arena"),
        8005 => Some("Urgent Delivery"),
        8006 => Some("Urgent Delivery"),
        8020 => Some("Demi-Human Duel"),
        8021 => Some("Demi-Human Duel"),
        9000 => Some("Spider Mine"),
        9001 => Some("Balloon Capture"),
        9002 => Some("Defeat the Year Demon"),
        9200 => Some("Dragon Shackles: Adept's Trial"),
        9201 => Some("Loom of Dreams\u{200b}"),
        9202 => Some("Slumberdream Valley"),
        9203 => Some("Slumberdream Valley"),
        9204 => Some("Slumberdream Valley"),
        10001 => Some("Square Practice Field 1"),
        10002 => Some("Square Practice Field 2"),
        11001 => Some("Wondrous Tag"),
        12000 => Some("Guild Center"),
        12011 => Some("Guild Hunt - Hard"),
        12012 => Some("Guild Hunt - Normal"),
        12013 => Some("Guild Hunt - Easy"),
        12014 => Some("Guild Hunt - Normal"),
        12015 => Some("Guild Hunt - Hard"),
        12016 => Some("Devourer Cage Sharing"),
        12017 => Some("Devourer Cage Sharing"),
        12018 => Some("Guild Hunt - Normal"),
        12019 => Some("Guild Hunt - Hard"),
        12030 => Some("Ee-chan's Story"),
        12040 => Some("Guild Party"),
        12050 => Some("Giant Golem Crusade"),
        12051 => Some("Giant Golem Crusade"),
        12100 => Some("Echoing Dungeon"),
        13001 => Some("Clash! Floating Island - Dragon Shackles"),
        13002 => Some("Brutal! Floating Island - Dragon Shackles"),
        13003 => Some("Purge! Floating Island - Dragon Shackles"),
        13011 => Some("Clash! Dreambloom Ruins"),
        13012 => Some("Brutal! Dreambloom Ruins"),
        13013 => Some("Purge! Dreambloom Ruins"),
        20101 => Some("Guardian 1"),
        20102 => Some("Guardian 10"),
        20201 => Some("Guardian 2"),
        20202 => Some("Guardian 22"),
        20301 => Some("Guardian 4"),
        20302 => Some("Guardian 13"),
        20303 => Some("Guardian 25"),
        20401 => Some("Guardian 5"),
        20402 => Some("Guardian 16"),
        20501 => Some("Guardian 7"),
        20502 => Some("Guardian 19"),
        20701 => Some("Guardian 14"),
        20702 => Some("Guardian 20"),
        20801 => Some("Guardian 8"),
        20802 => Some("Guardian 17"),
        20803 => Some("Guardian 26"),
        21201 => Some("Guardian 23"),
        21202 => Some("Guardian 29"),
        21301 => Some("Guardian 6"),
        21302 => Some("Guardian 12"),
        21303 => Some("Guardian 18"),
        21304 => Some("Guardian 24"),
        21305 => Some("Guardian 30"),
        21306 => Some("Guardian 3"),
        21307 => Some("Guardian 9"),
        21308 => Some("Guardian 15"),
        21309 => Some("Guardian 21"),
        21310 => Some("Guardian 27"),
        21401 => Some("Guardian 11"),
        21402 => Some("Guardian 28"),
        22101 => Some("Attack 17"),
        22201 => Some("Attack 10"),
        22202 => Some("Attack 23"),
        22301 => Some("Attack 11"),
        22401 => Some("Attack 13"),
        22402 => Some("Attack 19"),
        22501 => Some("Attack 6"),
        22502 => Some("Attack 12"),
        22503 => Some("Attack 18"),
        22504 => Some("Attack 24"),
        22505 => Some("Attack 30"),
        22601 => Some("Attack 7"),
        22602 => Some("Attack 14"),
        22701 => Some("Attack 8"),
        22702 => Some("Attack 26"),
        23101 => Some("Attack 3"),
        23102 => Some("Attack 9"),
        23103 => Some("Attack 15"),
        23104 => Some("Attack 21"),
        23105 => Some("Attack 27"),
        23201 => Some("Attack 4"),
        23301 => Some("Attack 1"),
        23302 => Some("Attack 20"),
        23401 => Some("Attack 2"),
        23501 => Some("Attack 5"),
        23502 => Some("Attack 25"),
        23601 => Some("Attack 16"),
        23602 => Some("Attack 28"),
        23701 => Some("Attack 22"),
        23702 => Some("Attack 29"),
        24101 => Some("Support 3"),
        24102 => Some("Support 6"),
        24103 => Some("Support 9"),
        24104 => Some("Support 12"),
        24105 => Some("Support 15"),
        24106 => Some("Support 18"),
        24107 => Some("Support 21"),
        24108 => Some("Support 24"),
        24109 => Some("Support 27"),
        24110 => Some("Support 30"),
        24201 => Some("Support 2"),
        24202 => Some("Support 10"),
        24203 => Some("Support 17"),
        24204 => Some("Support 25"),
        24301 => Some("Support 5"),
        24302 => Some("Support 14"),
        24303 => Some("Support 20"),
        24304 => Some("Support 29"),
        24401 => Some("Support 4"),
        24402 => Some("Support 11"),
        24403 => Some("Support 19"),
        24404 => Some("Support 23"),
        24501 => Some("Support 7"),
        24502 => Some("Support 16"),
        24503 => Some("Support 22"),
        24504 => Some("Support 28"),
        24601 => Some("Support 1"),
        24602 => Some("Support 8"),
        24603 => Some("Support 13"),
        24604 => Some("Support 26"),
        30001 => Some("Homestead Courtyard"),
        30101 => Some("Stimen Vaults Floor 1"),
        30102 => Some("Stimen Vaults Floor 2"),
        30103 => Some("Stimen Vaults Floor 3"),
        30104 => Some("Stimen Vaults Floor 4"),
        30105 => Some("Stimen Vaults Floor 5"),
        30106 => Some("Stimen Vaults Floor 6"),
        30107 => Some("Stimen Vaults Floor 7"),
        30108 => Some("Stimen Vaults Floor 8"),
        30109 => Some("Stimen Vaults Floor 9"),
        30110 => Some("Stimen Vaults Floor 10"),
        30111 => Some("Stimen Vaults Floor 11"),
        30112 => Some("Stimen Vaults Floor 12"),
        30113 => Some("Stimen Vaults Floor 13"),
        30114 => Some("Stimen Vaults Floor 14"),
        30115 => Some("Stimen Vaults Floor 15"),
        30116 => Some("Stimen Vaults Floor 16"),
        30117 => Some("Stimen Vaults Floor 17"),
        30118 => Some("Stimen Vaults Floor 18"),
        30119 => Some("Stimen Vaults Floor 19"),
        30120 => Some("Stimen Vaults Floor 20"),
        30121 => Some("Stimen Vaults Floor 21"),
        30122 => Some("Stimen Vaults Floor 22"),
        30123 => Some("Stimen Vaults Floor 23"),
        30124 => Some("Stimen Vaults Floor 24"),
        30125 => Some("Stimen Vaults Floor 25"),
        30126 => Some("Stimen Vaults Floor 26"),
        30127 => Some("Stimen Vaults Floor 27"),
        30128 => Some("Stimen Vaults Floor 28"),
        30129 => Some("Stimen Vaults Floor 29"),
        30130 => Some("Stimen Vaults Floor 30"),
        30131 => Some("Stimen Vaults Floor 31"),
        30132 => Some("Stimen Vaults Floor 32"),
        30133 => Some("Stimen Vaults Floor 33"),
        30134 => Some("Stimen Vaults Floor 34"),
        30135 => Some("Stimen Vaults Floor 35"),
        30136 => Some("Stimen Vaults Floor 36"),
        30137 => Some("Stimen Vaults Floor 37"),
        30138 => Some("Stimen Vaults Floor 38"),
        30139 => Some("Stimen Vaults Floor 39"),
        30140 => Some("Stimen Vaults Floor 40"),
        30141 => Some("Stimen Vaults Floor 41"),
        30142 => Some("Stimen Vaults Floor 42"),
        30143 => Some("Stimen Vaults Floor 43"),
        30144 => Some("Stimen Vaults Floor 44"),
        30145 => Some("Stimen Vaults Floor 45"),
        30146 => Some("Stimen Vaults Floor 46"),
        30147 => Some("Stimen Vaults Floor 47"),
        30148 => Some("Stimen Vaults Floor 48"),
        30149 => Some("Stimen Vaults Floor 49"),
        30150 => Some("Stimen Vaults Floor 50"),
        30151 => Some("Stimen Vaults Floor 51"),
        30152 => Some("Stimen Vaults Floor 52"),
        30153 => Some("Stimen Vaults Floor 53"),
        30154 => Some("Stimen Vaults Floor 54"),
        30155 => Some("Stimen Vaults Floor 55"),
        30156 => Some("Stimen Vaults Floor 56"),
        30157 => Some("Stimen Vaults Floor 57"),
        30158 => Some("Stimen Vaults Floor 58"),
        30159 => Some("Stimen Vaults Floor 59"),
        30160 => Some("Stimen Vaults Floor 60"),
        30161 => Some("Stimen Vaults Floor 61"),
        30162 => Some("Stimen Vaults Floor 62"),
        30163 => Some("Stimen Vaults Floor 63"),
        30164 => Some("Stimen Vaults Floor 64"),
        30165 => Some("Stimen Vaults Floor 65"),
        30166 => Some("Stimen Vaults Floor 66"),
        30167 => Some("Stimen Vaults Floor 67"),
        30168 => Some("Stimen Vaults Floor 68"),
        30169 => Some("Stimen Vaults Floor 69"),
        30170 => Some("Stimen Vaults Floor 70"),
        30171 => Some("Stimen Vaults Floor 71"),
        30172 => Some("Stimen Vaults Floor 72"),
        30173 => Some("Stimen Vaults Floor 73"),
        30174 => Some("Stimen Vaults Floor 74"),
        30175 => Some("Stimen Vaults Floor 75"),
        30200 => Some("Stimen Vaults Floor 75"),
        31101 => Some("Stimen Vaults Floor 1"),
        31102 => Some("Stimen Vaults Floor 2"),
        31103 => Some("Stimen Vaults Floor 3"),
        31104 => Some("Stimen Vaults Floor 4"),
        31105 => Some("Stimen Vaults Floor 5"),
        31106 => Some("Stimen Vaults Floor 6"),
        31107 => Some("Stimen Vaults Floor 7"),
        31108 => Some("Stimen Vaults Floor 8"),
        31109 => Some("Stimen Vaults Floor 9"),
        31110 => Some("Stimen Vaults Floor 10"),
        31111 => Some("Stimen Vaults Floor 11"),
        31112 => Some("Stimen Vaults Floor 12"),
        31113 => Some("Stimen Vaults Floor 13"),
        31114 => Some("Stimen Vaults Floor 14"),
        31115 => Some("Stimen Vaults Floor 15"),
        31116 => Some("Stimen Vaults Floor 16"),
        31117 => Some("Stimen Vaults Floor 17"),
        31118 => Some("Stimen Vaults Floor 18"),
        31119 => Some("Stimen Vaults Floor 19"),
        31120 => Some("Stimen Vaults Floor 20"),
        31121 => Some("Stimen Vaults Floor 21"),
        31122 => Some("Stimen Vaults Floor 22"),
        31123 => Some("Stimen Vaults Floor 23"),
        31124 => Some("Stimen Vaults Floor 24"),
        31125 => Some("Stimen Vaults Floor 25"),
        31126 => Some("Stimen Vaults Floor 26"),
        31127 => Some("Stimen Vaults Floor 27"),
        31128 => Some("Stimen Vaults Floor 28"),
        31129 => Some("Stimen Vaults Floor 29"),
        31130 => Some("Stimen Vaults Floor 30"),
        31131 => Some("Stimen Vaults Floor 31"),
        31132 => Some("Stimen Vaults Floor 32"),
        31133 => Some("Stimen Vaults Floor 33"),
        31134 => Some("Stimen Vaults Floor 34"),
        31135 => Some("Stimen Vaults Floor 35"),
        31136 => Some("Stimen Vaults Floor 36"),
        31137 => Some("Stimen Vaults Floor 37"),
        31138 => Some("Stimen Vaults Floor 38"),
        31139 => Some("Stimen Vaults Floor 39"),
        31140 => Some("Stimen Vaults Floor 40"),
        31141 => Some("Stimen Vaults Floor 41"),
        31142 => Some("Stimen Vaults Floor 42"),
        31143 => Some("Stimen Vaults Floor 43"),
        31144 => Some("Stimen Vaults Floor 44"),
        31145 => Some("Stimen Vaults Floor 45"),
        31146 => Some("Stimen Vaults Floor 46"),
        31147 => Some("Stimen Vaults Floor 47"),
        31148 => Some("Stimen Vaults Floor 48"),
        31149 => Some("Stimen Vaults Floor 49"),
        31150 => Some("Stimen Vaults Floor 50"),
        31151 => Some("Stimen Vaults Floor 51"),
        31152 => Some("Stimen Vaults Floor 52"),
        31153 => Some("Stimen Vaults Floor 53"),
        31154 => Some("Stimen Vaults Floor 54"),
        31155 => Some("Stimen Vaults Floor 55"),
        31156 => Some("Stimen Vaults Floor 56"),
        31157 => Some("Stimen Vaults Floor 57"),
        31158 => Some("Stimen Vaults Floor 58"),
        31159 => Some("Stimen Vaults Floor 59"),
        31160 => Some("Stimen Vaults Floor 60"),
        31161 => Some("Stimen Vaults Floor 61"),
        31162 => Some("Stimen Vaults Floor 62"),
        31163 => Some("Stimen Vaults Floor 63"),
        31164 => Some("Stimen Vaults Floor 64"),
        31165 => Some("Stimen Vaults Floor 65"),
        31166 => Some("Stimen Vaults Floor 66"),
        31167 => Some("Stimen Vaults Floor 67"),
        31168 => Some("Stimen Vaults Floor 68"),
        31169 => Some("Stimen Vaults Floor 69"),
        31170 => Some("Stimen Vaults Floor 70"),
        31171 => Some("Stimen Vaults Floor 71"),
        31172 => Some("Stimen Vaults Floor 72"),
        31173 => Some("Stimen Vaults Floor 73"),
        31174 => Some("Stimen Vaults Floor 74"),
        31175 => Some("Stimen Vaults Floor 75"),
        40001 => Some("Homestead House"),
        171001 => Some("Isolated Island"),
        _ => None,
    }
}

} // verus!
