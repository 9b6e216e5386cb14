use matrix_lang::quantum::circuit::{CircuitBuilder, QuantumCircuit};
use matrix_lang::quantum::visualization::{
    draw_circuit, draw_circuit_ascii, CircuitRenderer, RenderStyle, StateRenderer, VisualizationConfig,
    VisualizationMode,
};

fn no_angles() -> Vec<(u64, String)> {
    Vec::new()
}

#[test]
fn test_circuit_visualization() {
    let circuit = CircuitBuilder::new(2).h(0).cnot(0, 1).measure_all().build();

    let ascii_output = draw_circuit_ascii(&circuit, &no_angles());
    assert!(ascii_output.contains("H"));
    assert!(ascii_output.contains("CNOT") || ascii_output.contains("●"));
}

#[test]
fn test_export_functions() {
    let circuit = CircuitBuilder::new(1).h(0).build();

    let svg_content = {
        let mut config = VisualizationConfig::default();
        config.style = RenderStyle::SVG;
        let renderer = CircuitRenderer::new(config);
        renderer.render_circuit(&circuit, &no_angles())
    };

    assert!(svg_content.contains("<svg"));
    assert!(svg_content.contains("</svg>"));
}

#[test]
fn ascii_rendering_of_a_bell_circuit() {
    let circuit = CircuitBuilder::new(2).h(0).cnot(0, 1).measure_all().build();
    assert_eq!(
        draw_circuit_ascii(&circuit, &no_angles()),
        "Circuit: Circuit_2\nQubits: 2, Depth: 2, Gates: 2\n\nq0 : H       ─●        ►[M]\nq1 : ─       ─⊕        ►[M]\n"
    );
}

#[test]
fn ascii_rendering_writes_angles_from_the_table_and_connections() {
    let angle = 1.5f64.to_bits();
    let mut circuit = QuantumCircuit::new(3);
    circuit.rx(0, angle).unwrap();
    circuit.cnot(0, 2).unwrap();
    let labels = vec![(angle, format!("{:.2}", f64::from_bits(angle)))];
    let mut config = VisualizationConfig::default();
    config.style = RenderStyle::ASCII;
    config.show_measurements = false;
    let text = CircuitRenderer::new(config).render_circuit(&circuit, &labels);
    assert_eq!(
        text,
        "Circuit: Circuit_3\nQubits: 3, Depth: 2, Gates: 2\n\nq0 : RX(1.50)─●       \nq1 : ─       ──       \nq2 : ─       ─⊕       \n           │    \n"
    );
}

#[test]
fn unicode_rendering_frames_the_header() {
    let circuit = CircuitBuilder::new(2).h(0).cnot(0, 1).measure_all().build();
    let text = draw_circuit(&circuit);
    let expected_head = format!(
        "┌─ Circuit: Circuit_2 ─┐\n│ Qubits: 2   Depth: 2   Gates: 2   │\n└{}┘\n\nq0  q1  ",
        "─".repeat(21)
    );
    assert!(text.starts_with(&expected_head));
    let rows: Vec<&str> = text[expected_head.len()..].split('\n').collect();
    assert_eq!(rows[0], "     H──  ─────●──  ────────  ────────   ►╔═╗");
    assert_eq!(rows[1], "                                        ");
    assert_eq!(rows[2], "     ───  ─────⊕──  ────────  ────────   ►╔═╗");
    assert_eq!(rows.len(), 4);
    assert_eq!(rows[3], "");
}

#[test]
fn html_rendering_lists_the_cells() {
    let circuit = CircuitBuilder::new(2).h(0).cnot(0, 1).measure(1).build();
    let mut config = VisualizationConfig::default();
    config.style = RenderStyle::HTML;
    let html = CircuitRenderer::new(config).render_circuit(&circuit, &no_angles());
    assert!(html.starts_with("<!DOCTYPE html>\n<html>\n<head>\n    <title>Circuit_2</title>\n"));
    assert!(html.contains("        <div>Qubits: 2 | Depth: 2 | Gates: 2</div>\n        <br>\n"));
    assert!(html.contains("<div class=\"qubit-line\">q0: <span class=\"gate\">H</span><span class=\"gate\">●</span></div>\n"));
    assert!(html.contains(
        "<div class=\"qubit-line\">q1: <span style=\"width: 60px; display: inline-block;\">───</span><span class=\"gate\">⊕</span><span class=\"gate measurement\">M</span></div>\n"
    ));
    assert!(html.ends_with("    </div>\n</body>\n</html>\n"));
}

#[test]
fn svg_rendering_places_gates_and_measurements() {
    let circuit = CircuitBuilder::new(2).h(0).cnot(0, 1).measure(1).build();
    let mut config = VisualizationConfig::default();
    config.style = RenderStyle::SVG;
    let svg = CircuitRenderer::new(config).render_circuit(&circuit, &no_angles());
    assert!(svg.starts_with("<svg width=\"260\" height=\"220\" xmlns=\"http://www.w3.org/2000/svg\">\n<style>\n"));
    assert!(svg.contains("<line x1=\"30\" y1=\"110\" x2=\"230\" y2=\"110\" class=\"qubit-line\"/>\n<text x=\"15\" y=\"115\" class=\"gate-text\">q1</text>\n"));
    assert!(svg.contains("<rect x=\"45\" y=\"40\" width=\"30\" height=\"20\" class=\"gate-box\"/>\n<text x=\"60\" y=\"55\" class=\"gate-text\">H</text>\n"));
    assert!(svg.contains("<circle cx=\"140\" cy=\"50\" r=\"4\" class=\"control-dot\"/>\n"));
    assert!(svg.contains("<line x1=\"140\" y1=\"50\" x2=\"140\" y2=\"110\" stroke=\"#333\" stroke-width=\"2\"/>\n"));
    assert!(svg.contains("<rect x=\"210\" y=\"100\" width=\"30\" height=\"20\" class=\"measurement\"/>\n<text x=\"225\" y=\"115\" class=\"gate-text\">M</text>\n"));
    assert!(svg.ends_with("</svg>\n"));
}

#[test]
fn configuration_defaults() {
    let c = VisualizationConfig::default();
    assert_eq!(c.style, RenderStyle::Unicode);
    assert_eq!(c.width, 120);
    assert!(c.show_measurements && c.show_probabilities && c.color_enabled && !c.compact_mode);
    assert_eq!(StateRenderer::new(c).config, c);
    assert_ne!(VisualizationMode::Bloch, VisualizationMode::State);
}
