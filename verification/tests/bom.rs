use pcb_core::sch::bom::{detect_well_known_module, get_physical_attribute, get_string_attribute, Dielectric, WellKnownModule};
use pcb_core::sch::value::{AttributeValue, Decimal, PhysicalUnit, PhysicalValue};
use pcb_core::strmap::StrMap;

fn phys(mantissa: i128, scale: u32, tol: i128, tol_scale: u32, unit: PhysicalUnit) -> PhysicalValue {
    PhysicalValue {
        value: Decimal { mantissa, scale },
        tolerance: Decimal { mantissa: tol, scale: tol_scale },
        unit,
    }
}

#[test]
fn test_get_string_attribute() {
    let mut attributes = StrMap::new();
    attributes.insert("Mpn".to_string(), AttributeValue::String("RC0603FR-0710KL".to_string()));
    attributes.insert(
        "__resistance__".to_string(),
        AttributeValue::Physical(phys(10000, 0, 0, 0, PhysicalUnit::Ohms)),
    );

    let mpn = get_string_attribute(&attributes, &["MPN", "Mpn", "mpn"]);
    assert_eq!(mpn, Some("RC0603FR-0710KL".to_string()));

    let resistance_str = get_string_attribute(&attributes, &["__resistance__"]);
    assert!(resistance_str.is_some());

    let missing = get_string_attribute(&attributes, &["Missing"]);
    assert_eq!(missing, None);
}

#[test]
fn test_get_physical_attribute() {
    let mut attributes = StrMap::new();
    let physical_value = phys(4700, 0, 1, 2, PhysicalUnit::Ohms);
    attributes.insert("__resistance__".to_string(), AttributeValue::Physical(physical_value));
    attributes.insert("StringValue".to_string(), AttributeValue::String("not physical".to_string()));

    let resistance = get_physical_attribute(&attributes, &["__resistance__"]);
    assert_eq!(resistance, Some(physical_value));

    let string_val = get_physical_attribute(&attributes, &["StringValue"]);
    assert_eq!(string_val, None);

    let missing = get_physical_attribute(&attributes, &["Missing"]);
    assert_eq!(missing, None);
}

#[test]
fn test_detect_well_known_module() {
    let mut attributes = StrMap::new();
    attributes.insert("Type".to_string(), AttributeValue::String("resistor".to_string()));
    let r = phys(10000, 0, 1, 2, PhysicalUnit::Ohms);
    attributes.insert("__resistance__".to_string(), AttributeValue::Physical(r));
    match detect_well_known_module(&attributes) {
        Some(WellKnownModule::Resistor(resistor)) => {
            assert_eq!(resistor.resistance.value, Decimal { mantissa: 10000, scale: 0 });
            assert_eq!(resistor.resistance.tolerance, Decimal { mantissa: 1, scale: 2 });
        }
        _ => panic!("Expected resistor module"),
    }

    let mut capacitor_attributes = StrMap::new();
    capacitor_attributes.insert("Type".to_string(), AttributeValue::String("Capacitor".to_string()));
    let c = phys(1, 7, 2, 1, PhysicalUnit::Farads);
    capacitor_attributes.insert("__capacitance__".to_string(), AttributeValue::Physical(c));
    capacitor_attributes.insert("Dielectric".to_string(), AttributeValue::String("X7R".to_string()));
    match detect_well_known_module(&capacitor_attributes) {
        Some(WellKnownModule::Capacitor(capacitor)) => {
            assert_eq!(capacitor.capacitance, c);
            assert_eq!(capacitor.dielectric, Some(Dielectric::X7R));
            assert_eq!(capacitor.esr, None);
        }
        _ => panic!("Expected capacitor module"),
    }
}

#[test]
fn physical_value_text_and_dielectric_errors() {
    assert_eq!(phys(10000, 0, 0, 0, PhysicalUnit::Ohms).text(), "10000Ohm");
    assert_eq!(phys(-47, 3, 0, 0, PhysicalUnit::Farads).text(), "-0.047F");
    assert_eq!(phys(125, 1, 0, 0, PhysicalUnit::Volts).text(), "12.5V");
    assert_eq!(Dielectric::from_str("C0G"), Ok(Dielectric::C0G));
    assert_eq!(Dielectric::from_str("X9Z"), Err("Unknown dielectric: X9Z".to_string()));
}
